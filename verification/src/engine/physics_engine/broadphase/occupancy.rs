use vstd::prelude::*;

verus! {

/// Whether an object occupies a cell as its home cell or as a phantom cell.
#[derive(PartialEq, Eq, PartialOrd, Ord, Debug, Clone, Copy, Structural)]
pub enum CellType {
    Home,
    Phantom,
}

/// One occupation of a grid cell by an object.
#[derive(Debug, Clone, Copy, PartialEq, Eq, Structural)]
pub struct Cell {
    pub cell_type: CellType,
    pub cell_id: usize,
    pub object_id: usize,
}

/// The occupation of one grid cell: where its objects start in the sorted
/// list, and how many occupy it as home and as phantom cell.
#[derive(Debug, Clone, Copy, PartialEq, Eq, Structural)]
pub struct CollisionCell {
    pub start: usize,
    pub h_occupants: usize,
    pub p_occupants: usize,
}

/// The number of occupations of cell `c` of type `t` among the first `n`.
pub open spec fn occupants(objects: Seq<Cell>, n: int, c: int, t: CellType) -> int
    decreases n,
{
    if n <= 0 {
        0
    } else {
        occupants(objects, n - 1, c, t) + if objects[n - 1].cell_id == c && objects[n
            - 1].cell_type == t {
            1int
        } else {
            0int
        }
    }
}

proof fn lemma_occupants_bounded(objects: Seq<Cell>, n: int, c: int, t: CellType)
    requires
        0 <= n,
    ensures
        0 <= occupants(objects, n, c, t) <= n,
    decreases n,
{
    if n > 0 {
        lemma_occupants_bounded(objects, n - 1, c, t);
    }
}

/// Counts, for each of `num_cells` grid cells, the objects that occupy it as
/// home cell and as phantom cell.
pub fn count_occupants(objects: &[Cell], num_cells: usize) -> (r: Vec<CollisionCell>)
    requires
        forall|k: int| 0 <= k < objects@.len() ==> (#[trigger] objects@[k]).cell_id < num_cells,
    ensures
        r@.len() == num_cells,
        forall|c: int|
            0 <= c < num_cells ==> {
                &&& (#[trigger] r@[c]).start == 0
                &&& r@[c].h_occupants == occupants(objects@, objects@.len() as int, c, CellType::Home)
                &&& r@[c].p_occupants == occupants(
                    objects@,
                    objects@.len() as int,
                    c,
                    CellType::Phantom,
                )
            },
{
    let mut cell_counts: Vec<CollisionCell> = Vec::new();
    let mut c: usize = 0;
    while c < num_cells
        invariant
            c <= num_cells,
            cell_counts@.len() == c,
            forall|m: int|
                0 <= m < c ==> #[trigger] cell_counts@[m] == (CollisionCell {
                    start: 0,
                    h_occupants: 0,
                    p_occupants: 0,
                }),
        decreases num_cells - c,
    {
        cell_counts.push(CollisionCell { start: 0, h_occupants: 0, p_occupants: 0 });
        c = c + 1;
    }
    let n = objects.len();
    let mut i: usize = 0;
    while i < n
        invariant
            n == objects@.len(),
            i <= n,
            cell_counts@.len() == num_cells,
            forall|k: int| 0 <= k < objects@.len() ==> (#[trigger] objects@[k]).cell_id < num_cells,
            forall|m: int|
                0 <= m < num_cells ==> {
                    &&& (#[trigger] cell_counts@[m]).start == 0
                    &&& cell_counts@[m].h_occupants == occupants(objects@, i as int, m, CellType::Home)
                    &&& cell_counts@[m].p_occupants == occupants(
                        objects@,
                        i as int,
                        m,
                        CellType::Phantom,
                    )
                },
        decreases n - i,
    {
        let obj = &objects[i];
        let id = obj.cell_id;
        proof {
            lemma_occupants_bounded(objects@, i as int, id as int, CellType::Home);
            lemma_occupants_bounded(objects@, i as int, id as int, CellType::Phantom);
        }
        let ghost before = cell_counts@;
        let mut cell = cell_counts[id];
        match obj.cell_type {
            CellType::Home => cell.h_occupants = cell.h_occupants + 1,
            CellType::Phantom => cell.p_occupants = cell.p_occupants + 1,
        }
        cell_counts.set(id, cell);
        assert forall|m: int| 0 <= m < num_cells implies {
            &&& (#[trigger] cell_counts@[m]).start == 0
            &&& cell_counts@[m].h_occupants == occupants(objects@, i + 1, m, CellType::Home)
            &&& cell_counts@[m].p_occupants == occupants(objects@, i + 1, m, CellType::Phantom)
        } by {
            if m != id {
                assert(cell_counts@[m] == before[m]);
            }
        }
        i = i + 1;
    }
    cell_counts
}

/// The occupations of type `t` of cells `0` to `m - 1` among the first `n`.
pub open spec fn occupants_of_cells(objects: Seq<Cell>, n: int, m: int, t: CellType) -> int
    decreases m,
{
    if m <= 0 {
        0
    } else {
        occupants_of_cells(objects, n, m - 1, t) + occupants(objects, n, m - 1, t)
    }
}

/// The occupations of type `t` among the first `n`.
pub open spec fn occupations_of_type(objects: Seq<Cell>, n: int, t: CellType) -> int
    decreases n,
{
    if n <= 0 {
        0
    } else {
        occupations_of_type(objects, n - 1, t) + if objects[n - 1].cell_type == t {
            1int
        } else {
            0int
        }
    }
}

proof fn lemma_cells_step(objects: Seq<Cell>, n: int, m: int, t: CellType)
    requires
        1 <= n,
    ensures
        occupants_of_cells(objects, n, m, t) == occupants_of_cells(objects, n - 1, m, t) + if 0
            <= objects[n - 1].cell_id < m && objects[n - 1].cell_type == t {
            1int
        } else {
            0int
        },
    decreases m,
{
    if m > 0 {
        lemma_cells_step(objects, n, m - 1, t);
    }
}

/// Every occupation lies in exactly one cell: over all cells, the counts of
/// each type add up to the number of occupations of that type, and the home
/// and phantom counts together to the number of occupations.
pub proof fn lemma_occupants_add_up(objects: Seq<Cell>, num_cells: int, n: int)
    requires
        0 <= n <= objects.len(),
        forall|k: int| 0 <= k < objects.len() ==> (#[trigger] objects[k]).cell_id < num_cells,
    ensures
        occupants_of_cells(objects, n, num_cells, CellType::Home) == occupations_of_type(
            objects,
            n,
            CellType::Home,
        ),
        occupants_of_cells(objects, n, num_cells, CellType::Phantom) == occupations_of_type(
            objects,
            n,
            CellType::Phantom,
        ),
        occupations_of_type(objects, n, CellType::Home) + occupations_of_type(
            objects,
            n,
            CellType::Phantom,
        ) == n,
    decreases n,
{
    if n == 0 {
        lemma_cells_zero(objects, num_cells, CellType::Home);
        lemma_cells_zero(objects, num_cells, CellType::Phantom);
    } else {
        lemma_occupants_add_up(objects, num_cells, n - 1);
        lemma_cells_step(objects, n, num_cells, CellType::Home);
        lemma_cells_step(objects, n, num_cells, CellType::Phantom);
        assert(objects[n - 1].cell_id < num_cells);
    }
}

proof fn lemma_cells_zero(objects: Seq<Cell>, m: int, t: CellType)
    ensures
        occupants_of_cells(objects, 0, m, t) == 0,
    decreases m,
{
    if m > 0 {
        lemma_cells_zero(objects, m - 1, t);
    }
}

} // verus!
