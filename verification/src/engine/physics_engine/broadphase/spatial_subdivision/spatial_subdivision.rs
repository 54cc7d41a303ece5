use vstd::prelude::*;

use super::cell_id::{CellId, CellIdType};
use super::cell_type::CellType;
use super::cell_passes::{
    candidates_match, cell_pass, lists_are_objects, collision_passes, entry_pass, flat_cells, owned_cell_keys, pass_lists,
    partial_collisions, run_collisions, tested_pair,
};
use super::cell_runs::{
    entries_wf, is_run, lemma_run_entries, lemma_scan_inv, run_entries, run_scan, scannable,
};
use super::cell_sort::{lemma_sorted_order, sort_cell_order, sorted_cells, sorted_order};
use super::object_id::ObjectId;
use crate::engine::physics_engine::collision::collision_candidates::CollisionCandidates;

verus! {

/// Broad phase that sorts the cells occupied by each object's bounding circle
/// and tests, in four passes, the objects that share a cell.
pub struct SpatialSubdivision {}

pub const CONTROL_BIT_BOUNDING_VOLUME_1: u8 = 0b0000_0001;
pub const CONTROL_BIT_BOUNDING_VOLUME_2: u8 = 0b0000_0010;
pub const CONTROL_BIT_BOUNDING_VOLUME_3: u8 = 0b0000_0100;
pub const CONTROL_BIT_BOUNDING_VOLUME_4: u8 = 0b0000_1000;
pub const CONTROL_BIT_HOME_CELL_1: u8 = 0b0000_0000;
pub const CONTROL_BIT_HOME_CELL_2: u8 = 0b0001_0000;
pub const CONTROL_BIT_HOME_CELL_3: u8 = 0b0010_0000;
pub const CONTROL_BIT_HOME_CELL_4: u8 = 0b0011_0000;
pub const BOUNDING_VOLUME_MASK: u8 = 0b0000_1111;
pub const HOME_CELL_MASK: u8 = 0b1111_0000;

/// Index (0 to 3) of the parity class of a cell: the parity of x plus twice
/// the parity of y.
pub open spec fn parity_index(cell_id: (u32, u32, u32)) -> int {
    (cell_id.0 % 2) as int + 2 * (cell_id.1 % 2) as int
}

/// The bounding-volume bit of parity class `i`.
pub open spec fn bounding_volume_bit(i: int) -> u8 {
    if i == 0 {
        CONTROL_BIT_BOUNDING_VOLUME_1
    } else if i == 1 {
        CONTROL_BIT_BOUNDING_VOLUME_2
    } else if i == 2 {
        CONTROL_BIT_BOUNDING_VOLUME_3
    } else {
        CONTROL_BIT_BOUNDING_VOLUME_4
    }
}

/// The home-cell code of parity class `i`: `i` in the high nibble.
pub open spec fn home_cell_code(i: int) -> u8 {
    if i == 0 {
        CONTROL_BIT_HOME_CELL_1
    } else if i == 1 {
        CONTROL_BIT_HOME_CELL_2
    } else if i == 2 {
        CONTROL_BIT_HOME_CELL_3
    } else {
        CONTROL_BIT_HOME_CELL_4
    }
}

/// The key by which cells are grouped: distinct for distinct cells whose x and
/// y are below 1000 and whose z is below 4295.
pub open spec fn spec_hash(cell_id: (u32, u32, u32)) -> int {
    cell_id.0 + cell_id.1 * 1000 + cell_id.2 * 1_000_000
}

/// The parity class named by the home nibble of control bits.
pub open spec fn home_index(bits: u8) -> int {
    (bits / 16) as int
}

/// Whether the low nibble of control bits holds the bit of parity class `i`.
pub open spec fn occupies(bits: u8, i: int) -> bool {
    0 <= i < 4 && (bits >> (i as u8)) & 1u8 == 1u8
}

/// Whether, in pass `t` (the passes are numbered 1 to 4, pass `i + 1` testing
/// the cells of parity class `i`), the pair of objects with control bits `a`
/// and `b` is left to the pass of a shared home class: the home class of one
/// of them is a class that both occupy, and its pass comes before pass `t`.
/// The two need not share a grid cell of that class, so a skipped pair is not
/// always tested in that earlier pass.
pub open spec fn skips_pair(t: u8, a: u8, b: u8) -> bool {
    ||| (home_index(a) + 1 < t && occupies(a, home_index(a)) && occupies(b, home_index(a)))
    ||| (home_index(b) + 1 < t && occupies(a, home_index(b)) && occupies(b, home_index(b)))
}

/// The grouping keys of a sequence of cells.
pub open spec fn cell_keys(l: Seq<&CellId>) -> Seq<int> {
    l.map_values(|c: &CellId| spec_hash(c.cell_id))
}

/// The (start, count) pairs of a scan, as integers.
pub open spec fn widen_pairs(v: Seq<(u32, u32)>) -> Seq<(int, int)> {
    v.map_values(|p: (u32, u32)| (p.0 as int, p.1 as int))
}

/// Where a bounding circle lies relative to the grid, as the floating-point
/// front end measures it: its home cell, the quadrant of the home cell that
/// holds its centre, and whether it reaches into the cell beside that quadrant
/// (left or right), the cell above or below it, and the cell diagonally across
/// the quadrant's corner.
#[derive(Clone, Copy, Debug, PartialEq, Eq, Structural)]
pub struct CellOverlap {
    pub home_cell_x: u32,
    pub home_cell_y: u32,
    pub in_left_half: bool,
    pub in_top_half: bool,
    pub reaches_side: bool,
    pub reaches_vertical: bool,
    pub reaches_diagonal: bool,
}

impl CellOverlap {
    /// The x of the cell beside the quadrant.
    pub open spec fn side_x(self) -> int {
        if self.in_left_half { self.home_cell_x - 1 } else { self.home_cell_x + 1 }
    }

    /// The y of the cell above or below the quadrant.
    pub open spec fn vertical_y(self) -> int {
        if self.in_top_half { self.home_cell_y - 1 } else { self.home_cell_y + 1 }
    }

    /// The neighbouring cells that the circle reaches exist on the grid: none
    /// lies left of column 0 or above row 0, nor past the largest index.
    pub open spec fn wf(self) -> bool {
        &&& (self.reaches_side || self.reaches_diagonal) ==> 0 <= self.side_x() <= u32::MAX
        &&& (self.reaches_vertical || self.reaches_diagonal) ==> 0 <= self.vertical_y() <= u32::MAX
    }

    pub open spec fn home_cell(self) -> (u32, u32, u32) {
        (self.home_cell_x, self.home_cell_y, 0)
    }

    pub open spec fn side_cell(self) -> (u32, u32, u32) {
        (self.side_x() as u32, self.home_cell_y, 0)
    }

    pub open spec fn vertical_cell(self) -> (u32, u32, u32) {
        (self.home_cell_x, self.vertical_y() as u32, 0)
    }

    pub open spec fn diagonal_cell(self) -> (u32, u32, u32) {
        (self.side_x() as u32, self.vertical_y() as u32, 0)
    }
}

/// The home cell (x, y) of object `object_id`, in the plane z = 0.
pub open spec fn home_at(x: u32, y: u32, object_id: usize) -> CellId {
    CellId { cell_id: (x, y, 0), cell_object_type: CellIdType::Home, object_id }
}

/// A phantom cell (x, y) of object `object_id`, in the plane z = 0.
pub open spec fn phantom_at(x: int, y: int, object_id: usize) -> CellId {
    CellId { cell_id: (x as u32, y as u32, 0), cell_object_type: CellIdType::Phantom, object_id }
}

/// How many neighbouring cells a circle reaches.
pub open spec fn reach_count(o: CellOverlap) -> int {
    (if o.reaches_side { 1int } else { 0int }) + (if o.reaches_vertical { 1int } else { 0int }) + (
    if o.reaches_diagonal { 1int } else { 0int })
}

/// The cells of an object: its home cell first, then a phantom cell for the
/// side, vertical and diagonal neighbours it reaches, in that order.
pub open spec fn overlap_cells(o: CellOverlap, object_id: usize) -> Seq<CellId> {
    let home = seq![CellId { cell_id: o.home_cell(), cell_object_type: CellIdType::Home, object_id }];
    let s1 = if o.reaches_side {
        home.push(CellId { cell_id: o.side_cell(), cell_object_type: CellIdType::Phantom, object_id })
    } else {
        home
    };
    let s2 = if o.reaches_vertical {
        s1.push(
            CellId { cell_id: o.vertical_cell(), cell_object_type: CellIdType::Phantom, object_id },
        )
    } else {
        s1
    };
    if o.reaches_diagonal {
        s2.push(
            CellId { cell_id: o.diagonal_cell(), cell_object_type: CellIdType::Phantom, object_id },
        )
    } else {
        s2
    }
}

/// Control bits describe a list of cells whose first is the home cell: the
/// high nibble names the home cell's parity class and the low nibble has the
/// bit of exactly the classes of the listed cells.
pub open spec fn bits_describe(bits: u8, cells: Seq<CellId>) -> bool {
    &&& bits < 64
    &&& cells.len() >= 1
    &&& home_index(bits) == parity_index(cells[0].cell_id)
    &&& forall|i: int|
        0 <= i < 4 ==> (occupies(bits, i) <==> exists|k: int|
            0 <= k < cells.len() && parity_index(#[trigger] cells[k].cell_id) == i)
}

/// The parity class of a cell.
pub open spec fn cell_class(c: (u32, u32, u32)) -> CellType {
    CellType::from_parities(c.0 as int, c.1 as int)
}

/// The parity index of a cell is the index of its class.
pub proof fn lemma_parity_index_is_class_index(c: (u32, u32, u32))
    ensures
        parity_index(c) == cell_class(c).index(),
        0 <= parity_index(c) < 4,
{
}

/// The cells of one object: the home cell comes first and is the only home
/// cell; every cell names the object, lies in the plane z = 0 next to the
/// home cell (within one column and one row), and no two lie in the same
/// parity class, so there are at most four.
pub proof fn lemma_cell_object_layout(o: CellOverlap, object_id: usize)
    requires
        o.wf(),
    ensures
        ({
            let s = overlap_cells(o, object_id);
            &&& 1 <= s.len() <= 4
            &&& s[0].cell_id == o.home_cell()
            &&& s[0].cell_object_type == CellIdType::Home
            &&& forall|k: int| 1 <= k < s.len() ==> (#[trigger] s[k]).cell_object_type == CellIdType::Phantom
            &&& forall|k: int|
                0 <= k < s.len() ==> {
                    &&& (#[trigger] s[k]).object_id == object_id
                    &&& s[k].cell_id.2 == 0
                    &&& o.home_cell_x - 1 <= s[k].cell_id.0 <= o.home_cell_x + 1
                    &&& o.home_cell_y - 1 <= s[k].cell_id.1 <= o.home_cell_y + 1
                }
            &&& forall|k1: int, k2: int|
                0 <= k1 < s.len() && 0 <= k2 < s.len() && k1 != k2 ==> parity_index(
                    (#[trigger] s[k1]).cell_id,
                ) != parity_index((#[trigger] s[k2]).cell_id)
        }),
{
}

/// The phantom cells of an object lie in the neighbouring classes of its home
/// cell's class: the side cell in the horizontal neighbour class, the cell
/// above or below in the vertical one and the corner cell in the diagonal one.
pub proof fn lemma_cell_object_neighbor_classes(o: CellOverlap)
    requires
        o.wf(),
    ensures
        o.reaches_side ==> cell_class(o.side_cell()) == cell_class(o.home_cell()).horizontal_of(),
        o.reaches_vertical ==> cell_class(o.vertical_cell()) == cell_class(
            o.home_cell(),
        ).vertical_of(),
        o.reaches_diagonal ==> cell_class(o.diagonal_cell()) == cell_class(
            o.home_cell(),
        ).diagonal_of(),
{
}

/// The cell lists that `create_cell_object` makes for objects `0, 1, ...`
/// name their objects and keep each object's cells in distinct classes, as
/// the broad phase's at-most-once law asks of its input.
pub proof fn lemma_cell_objects_form_object_lists(overlaps: Seq<CellOverlap>)
    requires
        overlaps.len() <= usize::MAX,
        forall|i: int| 0 <= i < overlaps.len() ==> (#[trigger] overlaps[i]).wf(),
    ensures
        lists_are_objects(Seq::new(overlaps.len(), |i: int| overlap_cells(overlaps[i], i as usize))),
{
    let nested = Seq::new(overlaps.len(), |i: int| overlap_cells(overlaps[i], i as usize));
    assert forall|i: int, m: int| 0 <= i < nested.len() && 0 <= m < nested[i].len() implies (
    #[trigger] nested[i][m]).object_id == i by {
        lemma_cell_object_layout(overlaps[i], i as usize);
    }
    assert forall|i: int, m1: int, m2: int|
        #![trigger nested[i][m1], nested[i][m2]]
        0 <= i < nested.len() && 0 <= m1 < nested[i].len() && 0 <= m2 < nested[i].len() && m1
            != m2 implies parity_index(nested[i][m1].cell_id) != parity_index(nested[i][m2].cell_id) by {
        lemma_cell_object_layout(overlaps[i], i as usize);
    }
}

proof fn lemma_set_bit(v: u8, k: u8, j: u8)
    by (bit_vector)
    requires
        v < 64,
        k < 4,
        j < 4,
    ensures
        (v | (1u8 << k)) < 64,
        (v | (1u8 << k)) / 16 == v / 16,
        (((v | (1u8 << k)) >> j) & 1u8 == 1u8) == (((v >> j) & 1u8 == 1u8) || j == k),
{
}

proof fn lemma_home_bits(p: u8, j: u8)
    by (bit_vector)
    requires
        p < 4,
        j < 4,
    ensures
        (p << 4u8) | (1u8 << p) < 64,
        ((p << 4u8) | (1u8 << p)) / 16 == p,
        ((((p << 4u8) | (1u8 << p)) >> j) & 1u8 == 1u8) == (j == p),
{
}

proof fn lemma_bits_of_class(i: int)
    requires
        0 <= i < 4,
    ensures
        bounding_volume_bit(i) == 1u8 << (i as u8),
        home_cell_code(i) == (i as u8) << 4u8,
{
    if i == 0 {
        assert(1u8 << 0u8 == 1u8 && 0u8 << 4u8 == 0u8) by (bit_vector);
    } else if i == 1 {
        assert(1u8 << 1u8 == 2u8 && 1u8 << 4u8 == 16u8) by (bit_vector);
    } else if i == 2 {
        assert(1u8 << 2u8 == 4u8 && 2u8 << 4u8 == 32u8) by (bit_vector);
    } else {
        assert(1u8 << 3u8 == 8u8 && 3u8 << 4u8 == 48u8) by (bit_vector);
    }
}

proof fn lemma_describe_home(c: CellId)
    ensures
        bits_describe(
            home_cell_code(parity_index(c.cell_id)) | bounding_volume_bit(parity_index(c.cell_id)),
            seq![c],
        ),
{
    let p = parity_index(c.cell_id);
    lemma_bits_of_class(p);
    let bits = home_cell_code(p) | bounding_volume_bit(p);
    let cells = seq![c];
    assert forall|i: int| 0 <= i < 4 implies (occupies(bits, i) <==> exists|k: int|
        0 <= k < cells.len() && parity_index(#[trigger] cells[k].cell_id) == i) by {
        lemma_home_bits(p as u8, i as u8);
        if parity_index(cells[0].cell_id) == i {
        }
    }
    lemma_home_bits(p as u8, 0);
}

proof fn lemma_describe_push(bits: u8, cells: Seq<CellId>, c: CellId)
    requires
        bits_describe(bits, cells),
    ensures
        bits_describe(bits | bounding_volume_bit(parity_index(c.cell_id)), cells.push(c)),
{
    let p = parity_index(c.cell_id);
    lemma_bits_of_class(p);
    let nbits = bits | bounding_volume_bit(p);
    let ncells = cells.push(c);
    lemma_set_bit(bits, p as u8, 0);
    assert(ncells[0] == cells[0]);
    assert forall|i: int| 0 <= i < 4 implies (occupies(nbits, i) <==> exists|k: int|
        0 <= k < ncells.len() && parity_index(#[trigger] ncells[k].cell_id) == i) by {
        lemma_set_bit(bits, p as u8, i as u8);
        if occupies(bits, i) {
            let k = choose|k: int| 0 <= k < cells.len() && parity_index(#[trigger] cells[k].cell_id) == i;
            assert(ncells[k] == cells[k]);
        }
        if exists|k: int| 0 <= k < ncells.len() && parity_index(#[trigger] ncells[k].cell_id) == i {
            let k = choose|k: int| 0 <= k < ncells.len() && parity_index(#[trigger] ncells[k].cell_id) == i;
            if k < cells.len() {
                assert(ncells[k] == cells[k]);
            }
        }
        if i == p {
            assert(ncells[cells.len() as int] == c);
        }
    }
}

/// Appends `x` unless the list already holds it.
fn insert_unique(v: &mut Vec<usize>, x: usize)
    requires
        old(v)@.no_duplicates(),
    ensures
        final(v)@.no_duplicates(),
        final(v)@.to_set() == old(v)@.to_set().insert(x),
{
    let n = v.len();
    let mut k: usize = 0;
    while k < n
        invariant
            n == v@.len(),
            k <= n,
            forall|m: int| 0 <= m < k ==> v@[m] != x,
            v@.no_duplicates(),
        decreases n - k,
    {
        if v[k] == x {
            assert(v@.to_set() =~= v@.to_set().insert(x)) by {
                assert(v@.contains(x));
            }
            return;
        }
        k = k + 1;
    }
    let ghost old_v = v@;
    v.push(x);
    assert(v@.to_set() =~= old_v.to_set().insert(x)) by {
        assert forall|y: usize| v@.contains(y) implies old_v.contains(y) || y == x by {
            let m = choose|m: int| 0 <= m < v@.len() && v@[m] == y;
            if m < old_v.len() {
                assert(old_v[m] == y);
            }
        }
        assert forall|y: usize| old_v.contains(y) implies v@.contains(y) by {
            let m = choose|m: int| 0 <= m < old_v.len() && old_v[m] == y;
            assert(v@[m] == y);
        }
        assert(v@[old_v.len() as int] == x);
    }
}

/// Every cell names an object of the list, and every such object has a home
/// class below 4, as `create_cell_object` makes it.
pub open spec fn cells_name_objects(cells: Seq<CellId>, objs: Seq<ObjectId>) -> bool {
    forall|k: int|
        0 <= k < cells.len() ==> {
            &&& (#[trigger] cells[k]).object_id < objs.len()
            &&& home_index(objs[cells[k].object_id as int].control_bits) < 4
        }
}

impl SpatialSubdivision {
    pub fn new() -> Self {
        Self {}
    }

    pub fn get_control_bit_for_home_cell_id(cell_id: (u32, u32, u32)) -> (r: u8)
        ensures
            r == home_cell_code(parity_index(cell_id)),
    {
        let x_mod = cell_id.0 % 2;
        let y_mod = cell_id.1 % 2;
        if x_mod == 0 && y_mod == 0 {
            CONTROL_BIT_HOME_CELL_1  // Top-left cell
        } else if x_mod == 1 && y_mod == 0 {
            CONTROL_BIT_HOME_CELL_2  // Top-right cell
        } else if x_mod == 0 && y_mod == 1 {
            CONTROL_BIT_HOME_CELL_3  // Bottom-left cell
        } else {
            CONTROL_BIT_HOME_CELL_4  // Bottom-right cell
        }
    }

    pub fn get_control_bit_for_bounding_volume_cell_id(cell_id: (u32, u32, u32)) -> (r: u8)
        ensures
            r == bounding_volume_bit(parity_index(cell_id)),
    {
        let x_mod = cell_id.0 % 2;
        let y_mod = cell_id.1 % 2;
        if x_mod == 0 && y_mod == 0 {
            CONTROL_BIT_BOUNDING_VOLUME_1  // Top-left cell
        } else if x_mod == 1 && y_mod == 0 {
            CONTROL_BIT_BOUNDING_VOLUME_2  // Top-right cell
        } else if x_mod == 0 && y_mod == 1 {
            CONTROL_BIT_BOUNDING_VOLUME_3  // Bottom-left cell
        } else {
            CONTROL_BIT_BOUNDING_VOLUME_4  // Bottom-right cell
        }
    }

    pub fn hash(cell_id: (u32, u32, u32)) -> (r: u32)
        requires
            spec_hash(cell_id) <= u32::MAX,
        ensures
            r == spec_hash(cell_id),
    {
        cell_id.0 + cell_id.1 * 1_000 + cell_id.2 * 1_000_000
    }

    /// The cells of one object and its control bits, from where its bounding
    /// circle lies (see `overlap_cells`).
    pub fn create_cell_object(overlap: &CellOverlap, object_id: usize) -> (r: (ObjectId, Vec<CellId>))
        requires
            overlap.wf(),
        ensures
            r.1@ == overlap_cells(*overlap, object_id),
            bits_describe(r.0.control_bits, r.1@),
            r.1@.len() == 1 + reach_count(*overlap),
            r.1@[0] == home_at(overlap.home_cell_x, overlap.home_cell_y, object_id),
            overlap.reaches_side ==> r.1@.contains(
                phantom_at(
                    if overlap.in_left_half { overlap.home_cell_x - 1 } else { overlap.home_cell_x + 1 },
                    overlap.home_cell_y as int,
                    object_id,
                ),
            ),
            overlap.reaches_vertical ==> r.1@.contains(
                phantom_at(
                    overlap.home_cell_x as int,
                    if overlap.in_top_half { overlap.home_cell_y - 1 } else { overlap.home_cell_y + 1 },
                    object_id,
                ),
            ),
            overlap.reaches_diagonal ==> r.1@.contains(
                phantom_at(
                    if overlap.in_left_half { overlap.home_cell_x - 1 } else { overlap.home_cell_x + 1 },
                    if overlap.in_top_half { overlap.home_cell_y - 1 } else { overlap.home_cell_y + 1 },
                    object_id,
                ),
            ),
    {
        let home_cell_x = overlap.home_cell_x;
        let home_cell_y = overlap.home_cell_y;
        let home_cell_id = CellId::new((home_cell_x, home_cell_y, 0), CellIdType::Home, object_id);
        let mut control_bits = Self::get_control_bit_for_home_cell_id(home_cell_id.cell_id);
        control_bits = control_bits | Self::get_control_bit_for_bounding_volume_cell_id(
            home_cell_id.cell_id,
        );
        proof {
            lemma_describe_home(home_cell_id);
        }
        let mut cell_ids = vec![home_cell_id];
        assert(cell_ids@ =~= seq![home_cell_id]);

        // The quadrant fixes the one cell beside it, the one above or below it
        // and the one across its corner that the circle may reach.
        let side_x = if overlap.reaches_side || overlap.reaches_diagonal {
            if overlap.in_left_half { home_cell_x - 1 } else { home_cell_x + 1 }
        } else {
            home_cell_x
        };
        let vertical_y = if overlap.reaches_vertical || overlap.reaches_diagonal {
            if overlap.in_top_half { home_cell_y - 1 } else { home_cell_y + 1 }
        } else {
            home_cell_y
        };

        if overlap.reaches_side {
            let phantom = CellId::new((side_x, home_cell_y, 0), CellIdType::Phantom, object_id);
            proof {
                lemma_describe_push(control_bits, cell_ids@, phantom);
            }
            control_bits = control_bits | Self::get_control_bit_for_bounding_volume_cell_id(
                phantom.cell_id,
            );
            cell_ids.push(phantom);
        }
        if overlap.reaches_vertical {
            let phantom = CellId::new((home_cell_x, vertical_y, 0), CellIdType::Phantom, object_id);
            proof {
                lemma_describe_push(control_bits, cell_ids@, phantom);
            }
            control_bits = control_bits | Self::get_control_bit_for_bounding_volume_cell_id(
                phantom.cell_id,
            );
            cell_ids.push(phantom);
        }
        if overlap.reaches_diagonal {
            let phantom = CellId::new((side_x, vertical_y, 0), CellIdType::Phantom, object_id);
            proof {
                lemma_describe_push(control_bits, cell_ids@, phantom);
            }
            control_bits = control_bits | Self::get_control_bit_for_bounding_volume_cell_id(
                phantom.cell_id,
            );
            cell_ids.push(phantom);
        }
        assert(cell_ids@ =~= overlap_cells(*overlap, object_id));
        proof {
            let c = cell_ids@;
            let ns: int = if overlap.reaches_side { 1 } else { 0 };
            let nv: int = if overlap.reaches_vertical { 1 } else { 0 };
            if overlap.reaches_side {
                assert(c[1] == phantom_at(side_x as int, home_cell_y as int, object_id));
            }
            if overlap.reaches_vertical {
                assert(c[1 + ns] == phantom_at(home_cell_x as int, vertical_y as int, object_id));
            }
            if overlap.reaches_diagonal {
                assert(c[1 + ns + nv] == phantom_at(side_x as int, vertical_y as int, object_id));
            }
        }
        (ObjectId { control_bits }, cell_ids)
    }

    /// The cells of all objects, one object after the other.
    pub fn flatten_cells(nested: &Vec<Vec<CellId>>) -> (r: Vec<CellId>)
        ensures
            r@ == flat_cells(nested@),
    {
        let mut r: Vec<CellId> = Vec::new();
        let n = nested.len();
        let mut i: usize = 0;
        while i < n
            invariant
                n == nested@.len(),
                i <= n,
                r@ == flat_cells(nested@.take(i as int)),
            decreases n - i,
        {
            let inner = &nested[i];
            let m = inner.len();
            let mut j: usize = 0;
            while j < m
                invariant
                    n == nested@.len(),
                    i < n,
                    inner == nested@[i as int],
                    m == inner@.len(),
                    j <= m,
                    r@ == flat_cells(nested@.take(i as int)) + inner@.take(j as int),
                decreases m - j,
            {
                r.push(inner[j]);
                assert(inner@.take(j as int).push(inner@[j as int]) =~= inner@.take(j + 1));
                j = j + 1;
            }
            proof {
                let f = |v: Vec<CellId>| v@;
                assert(nested@.take(i + 1) =~= nested@.take(i as int).push(nested@[i as int]));
                assert(nested@.take(i + 1).map_values(f) =~= nested@.take(i as int).map_values(f).push(
                    inner@,
                ));
                nested@.take(i as int).map_values(f).lemma_flatten_push(inner@);
                assert(inner@.take(m as int) =~= inner@);
            }
            i = i + 1;
        }
        assert(nested@.take(n as int) =~= nested@);
        r
    }

    /// The broad phase on the cells of the objects: sorts the cells by key,
    /// groups them into runs of one grid cell, and for each run of more than
    /// one cell lists the objects of the pairs not already tested in an
    /// earlier pass, in the list of the pass of the run's parity class.
    pub fn collision_detection_on_cells(
        &self,
        object_id_array: &Vec<ObjectId>,
        cell_id_array_nested: &Vec<Vec<CellId>>,
    ) -> (r: [Vec<CollisionCandidates>; 4])
        requires
            flat_cells(cell_id_array_nested@).len() <= u32::MAX,
            forall|k: int|
                0 <= k < flat_cells(cell_id_array_nested@).len() ==> spec_hash(
                    (#[trigger] flat_cells(cell_id_array_nested@)[k]).cell_id,
                ) <= u32::MAX,
            scannable(owned_cell_keys(flat_cells(cell_id_array_nested@))),
            cells_name_objects(flat_cells(cell_id_array_nested@), object_id_array@),
        ensures
            forall|p: int|
                0 <= p < 4 ==> candidates_match(
                    #[trigger] r@[p]@,
                    collision_passes(flat_cells(cell_id_array_nested@), object_id_array@, (p + 1) as u8),
                ),
    {
        let flat = Self::flatten_cells(cell_id_array_nested);
        let ghost objs = object_id_array@;
        let order = sort_cell_order(&flat);
        let n = flat.len();
        proof {
            lemma_sorted_order(flat@);
        }
        let mut sorted: Vec<CellId> = Vec::new();
        let mut k: usize = 0;
        while k < n
            invariant
                n == flat@.len(),
                order@ == sorted_order(flat@),
                order@.len() == n,
                forall|m: int| 0 <= m < n ==> (#[trigger] order@[m]).1 < n,
                k <= n,
                sorted@ =~= sorted_cells(flat@).take(k as int),
            decreases n - k,
        {
            let pos = order[k].1;
            sorted.push(flat[pos]);
            k = k + 1;
        }
        assert(sorted@ =~= sorted_cells(flat@));
        let ghost s = sorted@;
        let ghost h = owned_cell_keys(s);
        assert forall|m: int| 0 <= m < s.len() implies spec_hash(#[trigger] s[m].cell_id) <= u32::MAX && s[m].object_id < objs.len() && home_index(objs[s[m].object_id as int].control_bits) < 4 by {
            assert(s[m] == flat@[order@[m].1 as int]);
        }
        assert(scannable(h)) by {
            if n == 1 {
                assert(s[0] == flat@[order@[0].1 as int]);
            }
        }

        let mut refs: Vec<&CellId> = Vec::new();
        let mut k: usize = 0;
        while k < n
            invariant
                n == s.len(),
                s == sorted@,
                k <= n,
                refs@.len() == k,
                forall|m: int| 0 <= m < k ==> *(#[trigger] refs@[m]) == s[m],
            decreases n - k,
        {
            refs.push(&sorted[k]);
            k = k + 1;
        }
        assert(cell_keys(refs@) =~= h);
        let cell_index = Self::cumsum(refs.as_slice());
        let ghost entries = run_entries(h);
        proof {
            lemma_run_entries(h);
        }

        let mut pass1: Vec<CollisionCandidates> = Vec::new();
        let mut pass2: Vec<CollisionCandidates> = Vec::new();
        let mut pass3: Vec<CollisionCandidates> = Vec::new();
        let mut pass4: Vec<CollisionCandidates> = Vec::new();
        let num_entries = cell_index.len();
        let mut c: usize = 0;
        while c < num_entries
            invariant
                s == sorted@,
                n == s.len(),
                h == owned_cell_keys(s),
                cells_name_objects(s, objs),
                objs == object_id_array@,
                entries == run_entries(h),
                widen_pairs(cell_index@) == entries,
                entries_wf(h, entries),
                num_entries == cell_index@.len(),
                c <= num_entries,
                candidates_match(pass1@, pass_lists(s, objs, entries, 1, c as nat)),
                candidates_match(pass2@, pass_lists(s, objs, entries, 2, c as nat)),
                candidates_match(pass3@, pass_lists(s, objs, entries, 3, c as nat)),
                candidates_match(pass4@, pass_lists(s, objs, entries, 4, c as nat)),
            decreases num_entries - c,
        {
            let (index, count) = cell_index[c];
            let ghost e = entries[c as int];
            assert(e == (index as int, count as int));
            assert(is_run(h, e));
            if count > 1 {
                let start = index as usize;
                let cnt = count as usize;
                // Pass `i + 1` tests the cells of parity class `i`.
                let cell = sorted[start].cell_id;
                let pass_num: u8 = (cell.0 % 2 + 2 * (cell.1 % 2) + 1) as u8;
                assert(pass_num == entry_pass(s, e));
                let collisions = Self::run_collision_list(&sorted, object_id_array, start, cnt, pass_num);
                if collisions.len() > 0 {
                    assert(!run_collisions(s, objs, e, pass_num).is_empty()) by {
                        assert(collisions@.to_set().contains(collisions@[0]));
                    }
                    let candidates = CollisionCandidates::new(collisions);
                    if pass_num == 1 {
                        pass1.push(candidates);
                    } else if pass_num == 2 {
                        pass2.push(candidates);
                    } else if pass_num == 3 {
                        pass3.push(candidates);
                    } else {
                        pass4.push(candidates);
                    }
                } else {
                    assert(run_collisions(s, objs, e, pass_num).is_empty()) by {
                        assert(collisions@.to_set() =~= Set::<usize>::empty());
                    }
                }
            }
            c = c + 1;
        }
        [pass1, pass2, pass3, pass4]
    }

    /// The objects of the run of `count` sorted cells from `start` that take
    /// part in a pair tested in pass `pass_num`, each once.
    pub fn run_collision_list(
        cells: &Vec<CellId>,
        object_id_array: &Vec<ObjectId>,
        start: usize,
        count: usize,
        pass_num: u8,
    ) -> (r: Vec<usize>)
        requires
            start + count <= cells@.len(),
            cells_name_objects(cells@, object_id_array@),
        ensures
            r@.no_duplicates(),
            r@.to_set() == run_collisions(
                cells@,
                object_id_array@,
                (start as int, count as int),
                pass_num,
            ),
    {
        let ghost s = cells@;
        let ghost objs = object_id_array@;
        let ghost e = (start as int, count as int);
        let _n = cells.len();
        let end = start + count;
        let mut collision_set: Vec<usize> = Vec::new();
        let mut i = start;
        assert(collision_set@.to_set() =~= partial_collisions(s, objs, e, pass_num, start as int, start + 1));
        while i < end
            invariant
                s == cells@,
                objs == object_id_array@,
                e == (start as int, count as int),
                end == start + count,
                end <= s.len(),
                start <= i <= end,
                cells_name_objects(s, objs),
                collision_set@.no_duplicates(),
                collision_set@.to_set() == partial_collisions(s, objs, e, pass_num, i as int, i + 1),
            decreases end - i,
        {
            let cell_id_a = &cells[i];
            let object_id_a = &object_id_array[cell_id_a.object_id];
            let mut j = i + 1;
            while j < end
                invariant
                    s == cells@,
                    objs == object_id_array@,
                    e == (start as int, count as int),
                    end == start + count,
                    end <= s.len(),
                    start <= i < end,
                    i < j <= end,
                    cell_id_a == s[i as int],
                    object_id_a == objs[cell_id_a.object_id as int],
                    cells_name_objects(s, objs),
                    collision_set@.no_duplicates(),
                    collision_set@.to_set() == partial_collisions(s, objs, e, pass_num, i as int, j as int),
                decreases end - j,
            {
                let cell_id_b = &cells[j];
                let object_id_b = &object_id_array[cell_id_b.object_id];
                let ghost before = collision_set@.to_set();
                let skip = Self::can_we_skip_collision_test(pass_num, object_id_a, object_id_b);
                if !skip {
                    insert_unique(&mut collision_set, cell_id_a.object_id);
                    insert_unique(&mut collision_set, cell_id_b.object_id);
                    assert(tested_pair(s, objs, e, pass_num, i as int, j as int));
                    assert(collision_set@.to_set() =~= partial_collisions(s, objs, e, pass_num, i as int, j + 1)) by {
                        assert forall|o: usize| partial_collisions(s, objs, e, pass_num, i as int, j + 1).contains(o)
                            implies #[trigger] collision_set@.to_set().contains(o) by {
                            let (i2, j2) = choose|i2: int, j2: int|
                                #[trigger] tested_pair(s, objs, e, pass_num, i2, j2) && (i2 < i || (i2 == i && j2 < j + 1)) && (o
                                    == s[i2].object_id || o == s[j2].object_id);
                            if !(i2 == i && j2 == j) {
                                assert(partial_collisions(s, objs, e, pass_num, i as int, j as int).contains(o));
                            }
                        }
                        assert forall|o: usize| #[trigger] collision_set@.to_set().contains(o)
                            implies partial_collisions(s, objs, e, pass_num, i as int, j + 1).contains(o) by {
                            if before.contains(o) {
                                let (i2, j2) = choose|i2: int, j2: int|
                                    #[trigger] tested_pair(s, objs, e, pass_num, i2, j2) && (i2 < i || (i2 == i && j2 < j)) && (o
                                        == s[i2].object_id || o == s[j2].object_id);
                                assert(tested_pair(s, objs, e, pass_num, i2, j2));
                            } else {
                                assert(tested_pair(s, objs, e, pass_num, i as int, j as int));
                            }
                        }
                    }
                } else {
                    assert(collision_set@.to_set() =~= partial_collisions(s, objs, e, pass_num, i as int, j + 1)) by {
                        assert forall|o: usize| partial_collisions(s, objs, e, pass_num, i as int, j + 1).contains(o)
                            implies #[trigger] partial_collisions(s, objs, e, pass_num, i as int, j as int).contains(o) by {
                            let (i2, j2) = choose|i2: int, j2: int|
                                #[trigger] tested_pair(s, objs, e, pass_num, i2, j2) && (i2 < i || (i2 == i && j2 < j + 1)) && (o
                                    == s[i2].object_id || o == s[j2].object_id);
                            assert(!(i2 == i && j2 == j));
                            assert(tested_pair(s, objs, e, pass_num, i2, j2));
                        }
                        assert forall|o: usize| #[trigger] partial_collisions(s, objs, e, pass_num, i as int, j as int).contains(o)
                            implies partial_collisions(s, objs, e, pass_num, i as int, j + 1).contains(o) by {
                            let (i2, j2) = choose|i2: int, j2: int|
                                #[trigger] tested_pair(s, objs, e, pass_num, i2, j2) && (i2 < i || (i2 == i && j2 < j)) && (o
                                    == s[i2].object_id || o == s[j2].object_id);
                            assert(tested_pair(s, objs, e, pass_num, i2, j2));
                        }
                    }
                }
                j = j + 1;
            }
            assert(partial_collisions(s, objs, e, pass_num, i as int, end as int) =~= partial_collisions(s, objs, e, pass_num, i + 1, i + 2)) by {
                assert forall|o: usize| #[trigger] partial_collisions(s, objs, e, pass_num, i + 1, i + 2).contains(o)
                    implies partial_collisions(s, objs, e, pass_num, i as int, end as int).contains(o) by {
                    let (i2, j2) = choose|i2: int, j2: int|
                        #[trigger] tested_pair(s, objs, e, pass_num, i2, j2) && (i2 < i + 1 || (i2 == i + 1 && j2 < i + 2)) && (o
                            == s[i2].object_id || o == s[j2].object_id);
                    assert(tested_pair(s, objs, e, pass_num, i2, j2));
                }
                assert forall|o: usize| #[trigger] partial_collisions(s, objs, e, pass_num, i as int, end as int).contains(o)
                    implies partial_collisions(s, objs, e, pass_num, i + 1, i + 2).contains(o) by {
                    let (i2, j2) = choose|i2: int, j2: int|
                        #[trigger] tested_pair(s, objs, e, pass_num, i2, j2) && (i2 < i || (i2 == i && j2 < end)) && (o
                            == s[i2].object_id || o == s[j2].object_id);
                    assert(tested_pair(s, objs, e, pass_num, i2, j2));
                }
            }
            i = i + 1;
        }
        assert(collision_set@.to_set() =~= run_collisions(s, objs, e, pass_num)) by {
            assert forall|o: usize| #[trigger] run_collisions(s, objs, e, pass_num).contains(o)
                implies partial_collisions(s, objs, e, pass_num, end as int, end + 1).contains(o) by {
                let (i2, j2) = choose|i2: int, j2: int|
                    #[trigger] tested_pair(s, objs, e, pass_num, i2, j2) && (o == s[i2].object_id || o == s[j2].object_id);
                assert(tested_pair(s, objs, e, pass_num, i2, j2));
            }
            assert forall|o: usize| #[trigger] partial_collisions(s, objs, e, pass_num, end as int, end + 1).contains(o)
                implies run_collisions(s, objs, e, pass_num).contains(o) by {
                let (i2, j2) = choose|i2: int, j2: int|
                    #[trigger] tested_pair(s, objs, e, pass_num, i2, j2) && (i2 < end || (i2 == end && j2 < end + 1)) && (o
                        == s[i2].object_id || o == s[j2].object_id);
                assert(tested_pair(s, objs, e, pass_num, i2, j2));
            }
        }
        collision_set
    }

    /// Scans the cells, sorted by key, into (start, count) entries, one for
    /// each run of equal keys (see `run_step`).
    pub fn cumsum(l: &[&CellId]) -> (r: Vec<(u32, u32)>)
        requires
            l@.len() <= u32::MAX,
            forall|k: int| 0 <= k < l@.len() ==> spec_hash(#[trigger] l@[k].cell_id) <= u32::MAX,
            scannable(cell_keys(l@)),
        ensures
            widen_pairs(r@) == run_entries(cell_keys(l@)),
            entries_wf(cell_keys(l@), widen_pairs(r@)),
    {
        let ghost h = cell_keys(l@);
        let n = l.len();
        let last_index = n as u32 - 1;
        let mut i: u32 = 0;
        let mut prev_cell_id: u32 = 0;
        let mut count: u32 = 0;
        let mut acc: Vec<(u32, u32)> = Vec::new();
        let mut idx: usize = 0;
        while idx < n
            invariant
                n == l@.len(),
                n <= u32::MAX,
                last_index == n - 1,
                h == cell_keys(l@),
                scannable(h),
                forall|k: int| 0 <= k < l@.len() ==> spec_hash(#[trigger] l@[k].cell_id) <= u32::MAX,
                idx <= n,
                run_scan(h, idx as nat) == (i as int, prev_cell_id as int, count as int, widen_pairs(acc@)),
                i == idx,
                count <= i,
            decreases n - idx,
        {
            proof {
                if idx >= 1 {
                    lemma_scan_inv(h, idx as int);
                }
            }
            let object = l[idx];
            let key = Self::hash(object.cell_id);
            assert(key == h[idx as int]);
            let is_last = i == last_index;
            let transition = prev_cell_id != key;
            let ghost old_acc = acc@;
            if transition {
                acc.push((i - count, count));
                if is_last {
                    acc.push((i - 1, 1));
                }
                prev_cell_id = key;
                count = 1;
            } else {
                if is_last {
                    acc.push((i - count, count + 1));
                }
                prev_cell_id = key;
                count = count + 1;
            }
            assert(widen_pairs(acc@) =~= run_scan(h, (idx + 1) as nat).3);
            i = i + 1;
            idx = idx + 1;
        }
        proof {
            lemma_run_entries(h);
        }
        acc
    }

    pub fn can_we_skip_collision_test(t: u8, object_id_a: &ObjectId, object_id_b: &ObjectId) -> (r:
        bool)
        requires
            home_index(object_id_a.control_bits) < 4,
            home_index(object_id_b.control_bits) < 4,
        ensures
            r == skips_pair(t, object_id_a.control_bits, object_id_b.control_bits),
            r <==> exists|h: u8|
                h < 4 && h + 1 < t && (h == object_id_a.control_bits / 16 || h
                    == object_id_b.control_bits / 16) && #[trigger] (((object_id_a.control_bits
                    & object_id_b.control_bits) >> h) & 1u8) == 1u8,
    {
        proof {
            lemma_skip_needs_a_shared_home_class(
                t,
                object_id_a.control_bits,
                object_id_b.control_bits,
            );
        }
        let a = object_id_a.control_bits;
        let b = object_id_b.control_bits;
        let home_cell_id_a = (a & HOME_CELL_MASK) >> 4;
        let home_cell_id_b = (b & HOME_CELL_MASK) >> 4;
        assert(home_cell_id_a == a / 16 && home_cell_id_b == b / 16) by (bit_vector)
            requires
                home_cell_id_a == (a & 0xF0u8) >> 4u8,
                home_cell_id_b == (b & 0xF0u8) >> 4u8,
        ;

        let home_cell_id_type_a: u8 = 1 << home_cell_id_a;
        let home_cell_id_type_b: u8 = 1 << home_cell_id_b;

        let bounding_volume_cell_a = a & BOUNDING_VOLUME_MASK;
        let bounding_volume_cell_b = b & BOUNDING_VOLUME_MASK;
        let common_bounding_volume_cells = bounding_volume_cell_a & bounding_volume_cell_b;

        let home_cell_a_among_common_cells = (home_cell_id_type_a & common_bounding_volume_cells)
            > 0;
        let home_cell_b_among_common_cells = (home_cell_id_type_b & common_bounding_volume_cells)
            > 0;
        assert(home_cell_a_among_common_cells == ((a >> home_cell_id_a) & 1 == 1 && (b
            >> home_cell_id_a) & 1 == 1)) by (bit_vector)
            requires
                home_cell_id_a < 4,
                home_cell_id_type_a == 1u8 << home_cell_id_a,
                common_bounding_volume_cells == (a & 15) & (b & 15),
                home_cell_a_among_common_cells == ((home_cell_id_type_a
                    & common_bounding_volume_cells) > 0),
        ;
        assert(home_cell_b_among_common_cells == ((a >> home_cell_id_b) & 1 == 1 && (b
            >> home_cell_id_b) & 1 == 1)) by (bit_vector)
            requires
                home_cell_id_b < 4,
                home_cell_id_type_b == 1u8 << home_cell_id_b,
                common_bounding_volume_cells == (a & 15) & (b & 15),
                home_cell_b_among_common_cells == ((home_cell_id_type_b
                    & common_bounding_volume_cells) > 0),
        ;

        let pred_a = (home_cell_id_a + 1) < t && home_cell_a_among_common_cells;
        let pred_b = (home_cell_id_b + 1) < t && home_cell_b_among_common_cells;

        pred_a || pred_b
    }
}

proof fn lemma_both_occupy(a: u8, b: u8, h: u8)
    by (bit_vector)
    requires
        h < 4,
    ensures
        ((((a & b) >> h) & 1u8) == 1u8) == (((a >> h) & 1u8) == 1u8 && ((b >> h) & 1u8) == 1u8),
{
}

/// A pair is skipped in pass `t` exactly when some class `h` whose pass
/// `h + 1` comes before `t` is the home class of one of the two objects and
/// is occupied by both: bit `h` is set in the low nibbles of both control
/// bytes, that is in their intersection.
pub proof fn lemma_skip_needs_a_shared_home_class(t: u8, a: u8, b: u8)
    requires
        a / 16 < 4,
        b / 16 < 4,
    ensures
        skips_pair(t, a, b) <==> exists|h: u8|
            h < 4 && h + 1 < t && (h == a / 16 || h == b / 16) && #[trigger] (((a & b) >> h) & 1u8)
                == 1u8,
{
    let ha = (a / 16) as u8;
    let hb = (b / 16) as u8;
    lemma_both_occupy(a, b, ha);
    lemma_both_occupy(a, b, hb);
    if exists|h: u8|
        h < 4 && h + 1 < t && (h == a / 16 || h == b / 16) && #[trigger] (((a & b) >> h) & 1u8)
            == 1u8 {
        let h = choose|h: u8|
            h < 4 && h + 1 < t && (h == a / 16 || h == b / 16) && #[trigger] (((a & b) >> h) & 1u8)
                == 1u8;
        lemma_both_occupy(a, b, h);
    }
    if skips_pair(t, a, b) {
        if home_index(a) + 1 < t && occupies(a, home_index(a)) && occupies(b, home_index(a)) {
            assert(((a & b) >> ha) & 1u8 == 1u8);
        } else {
            assert(((a & b) >> hb) & 1u8 == 1u8);
        }
    }
}

/// Whether a pair is skipped does not depend on the order of the two objects.
pub proof fn lemma_skip_is_symmetric(t: u8, a: u8, b: u8)
    ensures
        skips_pair(t, a, b) == skips_pair(t, b, a),
{
}

/// In the first pass no pair is skipped: nothing was tested before it.
pub proof fn lemma_first_pass_skips_nothing(a: u8, b: u8)
    ensures
        !skips_pair(1, a, b),
        !skips_pair(0, a, b),
{
}

/// All indices of the candidate lists of a pass, list after list.
pub open spec fn pass_indices(pass: Seq<CollisionCandidates>) -> Seq<usize> {
    pass.map_values(|c: CollisionCandidates| c.indices@).flatten()
}

/// Whether no index occurs twice among the candidate lists of a pass, neither
/// in two lists nor twice in one.
pub fn assert_object_id_in_candidate_list_exists_in_no_other_candidate_list(
    pass: &Vec<CollisionCandidates>,
) -> (r: bool)
    ensures
        r == pass_indices(pass@).no_duplicates(),
{
    let mut all: Vec<usize> = Vec::new();
    let n = pass.len();
    let mut i: usize = 0;
    while i < n
        invariant
            n == pass@.len(),
            i <= n,
            all@ == pass_indices(pass@.take(i as int)),
        decreases n - i,
    {
        let inner = &pass[i].indices;
        let m = inner.len();
        let mut j: usize = 0;
        while j < m
            invariant
                n == pass@.len(),
                i < n,
                inner == pass@[i as int].indices,
                m == inner@.len(),
                j <= m,
                all@ == pass_indices(pass@.take(i as int)) + inner@.take(j as int),
            decreases m - j,
        {
            all.push(inner[j]);
            assert(inner@.take(j as int).push(inner@[j as int]) =~= inner@.take(j + 1));
            j = j + 1;
        }
        proof {
            let f = |c: CollisionCandidates| c.indices@;
            assert(pass@.take(i + 1) =~= pass@.take(i as int).push(pass@[i as int]));
            assert(pass@.take(i + 1).map_values(f) =~= pass@.take(i as int).map_values(f).push(inner@));
            pass@.take(i as int).map_values(f).lemma_flatten_push(inner@);
            assert(inner@.take(m as int) =~= inner@);
        }
        i = i + 1;
    }
    assert(pass@.take(n as int) =~= pass@);
    let total = all.len();
    let mut a: usize = 0;
    while a < total
        invariant
            total == all@.len(),
            all@ == pass_indices(pass@),
            a <= total,
            forall|x: int, y: int| 0 <= x < a && x < y < total ==> all@[x] != all@[y],
        decreases total - a,
    {
        let mut b: usize = a + 1;
        while b < total
            invariant
                total == all@.len(),
                all@ == pass_indices(pass@),
                a < total,
                a + 1 <= b <= total,
                forall|x: int, y: int| 0 <= x < a && x < y < total ==> all@[x] != all@[y],
                forall|y: int| a < y < b ==> all@[a as int] != all@[y],
            decreases total - b,
        {
            if all[a] == all[b] {
                assert(!all@.no_duplicates()) by {
                    assert(all@[a as int] == all@[b as int]);
                }
                return false;
            }
            b = b + 1;
        }
        a = a + 1;
    }
    true
}

} // verus!
