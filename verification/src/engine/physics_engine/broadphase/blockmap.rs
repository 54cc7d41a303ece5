use vstd::prelude::*;

use crate::engine::physics_engine::collision::collision_candidates::CollisionCandidates;

verus! {

/// The grid cell of body `i`: row-major index of its (x, y) cell.
pub open spec fn body_cell(coords: Seq<(u32, u32)>, grid_width: u32, i: int) -> int {
    coords[i].1 * grid_width + coords[i].0
}

/// The bodies among the first `n` whose cell is `c`, in ascending order.
pub open spec fn bodies_in_cell(coords: Seq<(u32, u32)>, grid_width: u32, n: int, c: int) -> Seq<
    usize,
> {
    Seq::new(n as nat, |i: int| i as usize).filter(
        |b: usize| body_cell(coords, grid_width, b as int) == c,
    )
}

/// The contents of a list of lists.
pub open spec fn cell_lists(cells: Seq<Vec<usize>>) -> Seq<Seq<usize>> {
    cells.map_values(|v: Vec<usize>| v@)
}

/// The ids of the 3 x 3 block of cells around cell `c`, row by row.
pub open spec fn local_cell_ids(c: int, grid_width: int) -> Seq<int> {
    seq![
        c - grid_width - 1,
        c - grid_width,
        c - grid_width + 1,
        c - 1,
        c,
        c + 1,
        c + grid_width - 1,
        c + grid_width,
        c + grid_width + 1,
    ]
}

/// The bodies of the first `m` of the given cells, cell after cell.
pub open spec fn concat_cells(cells: Seq<Seq<usize>>, ids: Seq<int>, m: int) -> Seq<usize>
    decreases m,
{
    if m <= 0 {
        Seq::empty()
    } else {
        concat_cells(cells, ids, m - 1) + cells[ids[m - 1]]
    }
}

/// The bodies of the 3 x 3 block of cells around cell `c`.
pub open spec fn neighborhood(cells: Seq<Seq<usize>>, grid_width: int, c: int) -> Seq<usize> {
    concat_cells(cells, local_cell_ids(c, grid_width), 9)
}

/// The candidate lists of the centre cells `(i, 1)` to `(i, j - 1)` of row
/// `i`: the bodies around each centre, where there are more than one.
pub open spec fn row_candidates(cells: Seq<Seq<usize>>, grid_width: int, i: int, j: int) -> Seq<
    Seq<usize>,
>
    decreases j,
{
    if j <= 1 {
        Seq::empty()
    } else {
        let prev = row_candidates(cells, grid_width, i, j - 1);
        let nb = neighborhood(cells, grid_width, i * grid_width + (j - 1));
        if nb.len() > 1 {
            prev.push(nb)
        } else {
            prev
        }
    }
}

/// The candidate lists of the centre cells of rows 1 to `i - 1`.
pub open spec fn grid_rows(cells: Seq<Seq<usize>>, grid_width: int, i: int) -> Seq<Seq<usize>>
    decreases i,
{
    if i <= 1 {
        Seq::empty()
    } else {
        grid_rows(cells, grid_width, i - 1) + row_candidates(cells, grid_width, i - 1, grid_width - 1)
    }
}

/// The candidate lists of all cells off the border of the grid, row by row.
pub open spec fn grid_candidates(cells: Seq<Seq<usize>>, grid_width: int) -> Seq<Seq<usize>> {
    grid_rows(cells, grid_width, grid_width - 1)
}

/// The centres `(row, column)` of row `i` from column 1 to `j - 1` whose
/// block holds more than one body.
pub open spec fn row_centres(cells: Seq<Seq<usize>>, grid_width: int, i: int, j: int) -> Seq<(int, int)>
    decreases j,
{
    if j <= 1 {
        Seq::empty()
    } else {
        let prev = row_centres(cells, grid_width, i, j - 1);
        if neighborhood(cells, grid_width, i * grid_width + (j - 1)).len() > 1 {
            prev.push((i, j - 1))
        } else {
            prev
        }
    }
}

/// The centres of rows 1 to `i - 1` whose block holds more than one body.
pub open spec fn grid_centres(cells: Seq<Seq<usize>>, grid_width: int, i: int) -> Seq<(int, int)>
    decreases i,
{
    if i <= 1 {
        Seq::empty()
    } else {
        grid_centres(cells, grid_width, i - 1) + row_centres(cells, grid_width, i - 1, grid_width - 1)
    }
}

/// List `k` is the block of the inner cell `centres[k]` (row and column
/// between 1 and `grid_width - 2`), which holds more than one body, and the
/// centres come in strictly increasing row-major order, so no cell gives
/// two lists.
pub open spec fn lists_match_centres(
    cells: Seq<Seq<usize>>,
    grid_width: int,
    lists: Seq<Seq<usize>>,
    centres: Seq<(int, int)>,
) -> bool {
    &&& lists.len() == centres.len()
    &&& forall|k: int|
        0 <= k < lists.len() ==> {
            &&& 1 <= (#[trigger] centres[k]).0 <= grid_width - 2
            &&& 1 <= centres[k].1 <= grid_width - 2
            &&& lists[k] == neighborhood(cells, grid_width, centres[k].0 * grid_width + centres[k].1)
            &&& lists[k].len() > 1
        }
    &&& forall|k1: int, k2: int|
        0 <= k1 < k2 < lists.len() ==> (#[trigger] centres[k1]).0 < (#[trigger] centres[k2]).0 || (
        centres[k1].0 == centres[k2].0 && centres[k1].1 < centres[k2].1)
}

proof fn lemma_row_centres(cells: Seq<Seq<usize>>, grid_width: int, i: int, j: int)
    requires
        1 <= j,
    ensures
        row_centres(cells, grid_width, i, j).len() == row_candidates(cells, grid_width, i, j).len(),
        forall|k: int|
            0 <= k < row_centres(cells, grid_width, i, j).len() ==> {
                &&& (#[trigger] row_centres(cells, grid_width, i, j)[k]).0 == i
                &&& 1 <= row_centres(cells, grid_width, i, j)[k].1 < j
                &&& row_candidates(cells, grid_width, i, j)[k] == neighborhood(
                    cells,
                    grid_width,
                    i * grid_width + row_centres(cells, grid_width, i, j)[k].1,
                )
                &&& row_candidates(cells, grid_width, i, j)[k].len() > 1
            },
        forall|k1: int, k2: int|
            0 <= k1 < k2 < row_centres(cells, grid_width, i, j).len() ==> (#[trigger] row_centres(
                cells,
                grid_width,
                i,
                j,
            )[k1]).1 < (#[trigger] row_centres(cells, grid_width, i, j)[k2]).1,
    decreases j,
{
    if j > 1 {
        lemma_row_centres(cells, grid_width, i, j - 1);
    }
}

proof fn lemma_grid_centres(cells: Seq<Seq<usize>>, grid_width: int, i: int)
    requires
        grid_width >= 2,
        1 <= i <= grid_width - 1,
    ensures
        lists_match_centres(cells, grid_width, grid_rows(cells, grid_width, i), grid_centres(cells, grid_width, i)),
        forall|k: int|
            0 <= k < grid_centres(cells, grid_width, i).len() ==> (#[trigger] grid_centres(
                cells,
                grid_width,
                i,
            )[k]).0 < i,
    decreases i,
{
    if i > 1 {
        lemma_grid_centres(cells, grid_width, i - 1);
        lemma_row_centres(cells, grid_width, i - 1, grid_width - 1);
        let pc = grid_centres(cells, grid_width, i - 1);
        let pl = grid_rows(cells, grid_width, i - 1);
        let rc = row_centres(cells, grid_width, i - 1, grid_width - 1);
        let rl = row_candidates(cells, grid_width, i - 1, grid_width - 1);
        let c = grid_centres(cells, grid_width, i);
        let l = grid_rows(cells, grid_width, i);
        assert(c == pc + rc);
        assert(l == pl + rl);
        assert forall|k: int| 0 <= k < l.len() implies {
            &&& 1 <= (#[trigger] c[k]).0 <= grid_width - 2
            &&& 1 <= c[k].1 <= grid_width - 2
            &&& l[k] == neighborhood(cells, grid_width, c[k].0 * grid_width + c[k].1)
            &&& l[k].len() > 1
            &&& c[k].0 < i
        } by {
            if k < pc.len() {
                assert(c[k] == pc[k] && l[k] == pl[k]);
            } else {
                assert(c[k] == rc[k - pc.len()] && l[k] == rl[k - pc.len()]);
            }
        }
        assert forall|k1: int, k2: int| 0 <= k1 < k2 < l.len() implies (#[trigger] c[k1]).0 < (
        #[trigger] c[k2]).0 || (c[k1].0 == c[k2].0 && c[k1].1 < c[k2].1) by {
            if k2 < pc.len() {
                assert(c[k1] == pc[k1] && c[k2] == pc[k2]);
            } else if k1 < pc.len() {
                assert(c[k1] == pc[k1] && c[k2] == rc[k2 - pc.len()]);
            } else {
                assert(c[k1] == rc[k1 - pc.len()] && c[k2] == rc[k2 - pc.len()]);
            }
        }
    }
}

/// The index lists of a list of candidates.
pub open spec fn candidate_lists(v: Seq<CollisionCandidates>) -> Seq<Seq<usize>> {
    v.map_values(|c: CollisionCandidates| c.indices@)
}

/// The ids of the 3 x 3 block of cells around `center_id` on a grid
/// `grid_width` cells wide.
pub fn get_local_cell_ids(center_id: u32, grid_width: u32) -> (r: [u32; 9])
    requires
        center_id >= grid_width + 1,
        center_id + grid_width + 1 <= u32::MAX,
    ensures
        r@.map_values(|x: u32| x as int) == local_cell_ids(center_id as int, grid_width as int),
{
    let top_left = center_id - grid_width - 1;
    let top_center = center_id - grid_width;
    let top_right = center_id - grid_width + 1;
    let center_left = center_id - 1;
    let center_right = center_id + 1;
    let bottom_left = center_id + grid_width - 1;
    let bottom_center = center_id + grid_width;
    let bottom_right = center_id + grid_width + 1;
    let r = [
        top_left,
        top_center,
        top_right,
        center_left,
        center_id,
        center_right,
        bottom_left,
        bottom_center,
        bottom_right,
    ];
    assert(r@.map_values(|x: u32| x as int) =~= local_cell_ids(center_id as int, grid_width as int));
    r
}

/// Puts each body into the list of its grid cell: body `i` lies in cell
/// `(x, y)` of `cell_coords[i]`, and the lists are indexed row by row.
pub fn assign_object_to_cell(cell_coords: &Vec<(u32, u32)>, grid_width: u32) -> (r: Vec<Vec<usize>>)
    requires
        grid_width * grid_width <= u32::MAX,
        forall|i: int|
            0 <= i < cell_coords@.len() ==> body_cell(cell_coords@, grid_width, i) < grid_width
                * grid_width,
    ensures
        r@.len() == grid_width * grid_width,
        forall|c: int|
            0 <= c < r@.len() ==> (#[trigger] r@[c])@ == bodies_in_cell(
                cell_coords@,
                grid_width,
                cell_coords@.len() as int,
                c,
            ),
{
    let ghost coords = cell_coords@;
    let num_cells = (grid_width * grid_width) as usize;
    let mut cells: Vec<Vec<usize>> = Vec::new();
    let mut c: usize = 0;
    while c < num_cells
        invariant
            c <= num_cells,
            cells@.len() == c,
            forall|m: int| 0 <= m < c ==> (#[trigger] cells@[m])@ == Seq::<usize>::empty(),
        decreases num_cells - c,
    {
        cells.push(Vec::new());
        c = c + 1;
    }
    let n = cell_coords.len();
    assert forall|m: int| 0 <= m < num_cells implies (#[trigger] cells@[m])@ == bodies_in_cell(
        coords,
        grid_width,
        0,
        m,
    ) by {
        reveal(Seq::filter);
        assert(Seq::new(0, |i: int| i as usize) =~= Seq::<usize>::empty());
    }
    let mut i: usize = 0;
    while i < n
        invariant
            coords == cell_coords@,
            n == coords.len(),
            i <= n,
            num_cells == grid_width * grid_width,
            grid_width * grid_width <= u32::MAX,
            forall|b: int| 0 <= b < n ==> body_cell(coords, grid_width, b) < grid_width * grid_width,
            cells@.len() == num_cells,
            forall|m: int|
                0 <= m < num_cells ==> (#[trigger] cells@[m])@ == bodies_in_cell(
                    coords,
                    grid_width,
                    i as int,
                    m,
                ),
        decreases n - i,
    {
        let (x, y) = cell_coords[i];
        assert(body_cell(coords, grid_width, i as int) < grid_width * grid_width);
        assert(y * grid_width <= y * grid_width + x);
        let cell_index = (y * grid_width + x) as usize;
        let ghost before = cells@;
        cells[cell_index].push(i);
        proof {
            assert forall|m: int| 0 <= m < num_cells implies (#[trigger] cells@[m])@ == bodies_in_cell(
                coords,
                grid_width,
                i + 1,
                m,
            ) by {
                reveal(Seq::filter);
                let s1 = Seq::new((i + 1) as nat, |k: int| k as usize);
                assert(s1.drop_last() =~= Seq::new(i as nat, |k: int| k as usize));
                assert(s1.last() == i);
                if m != cell_index {
                    assert(cells@[m] == before[m]);
                }
            }
        }
        i = i + 1;
    }
    cells
}

/// The bodies of the 3 x 3 block around each cell off the border of the
/// grid, row by row, where there are more than one.
pub fn collision_candidates_from_cells(cells: &Vec<Vec<usize>>, grid_width: u32) -> (r: Vec<
    CollisionCandidates,
>)
    requires
        grid_width >= 1,
        grid_width * grid_width <= u32::MAX,
        cells@.len() == grid_width * grid_width,
    ensures
        candidate_lists(r@) == grid_candidates(cell_lists(cells@), grid_width as int),
        lists_match_centres(
            cell_lists(cells@),
            grid_width as int,
            candidate_lists(r@),
            grid_centres(cell_lists(cells@), grid_width as int, grid_width - 1),
        ),
        forall|ci: int, cj: int|
            1 <= ci <= grid_width - 2 && 1 <= cj <= grid_width - 2 && (#[trigger] neighborhood(
                cell_lists(cells@),
                grid_width as int,
                ci * grid_width + cj,
            )).len() > 1 ==> candidate_lists(r@).contains(
                neighborhood(cell_lists(cells@), grid_width as int, ci * grid_width + cj),
            ),
{
    let ghost cl = cell_lists(cells@);
    let ghost gw = grid_width as int;
    let mut all_candidates: Vec<CollisionCandidates> = Vec::new();
    let mut i: u32 = 1;
    while i < grid_width - 1
        invariant
            cl == cell_lists(cells@),
            gw == grid_width,
            grid_width >= 1,
            grid_width * grid_width <= u32::MAX,
            cells@.len() == grid_width * grid_width,
            1 <= i <= (if grid_width >= 2 { grid_width - 1 } else { 1 }),
            candidate_lists(all_candidates@) == grid_rows(cl, gw, i as int),
        decreases grid_width - i,
    {
        let ghost row_start = all_candidates@;
        let mut j: u32 = 1;
        while j < grid_width - 1
            invariant
                cl == cell_lists(cells@),
                gw == grid_width,
                grid_width >= 3,
                grid_width * grid_width <= u32::MAX,
                cells@.len() == grid_width * grid_width,
                1 <= i < grid_width - 1,
                1 <= j <= grid_width - 1,
                candidate_lists(row_start) == grid_rows(cl, gw, i as int),
                candidate_lists(all_candidates@) == grid_rows(cl, gw, i as int) + row_candidates(
                    cl,
                    gw,
                    i as int,
                    j as int,
                ),
            decreases grid_width - j,
        {
            assert(i * grid_width + j + grid_width + 1 <= grid_width * grid_width - 1) by (nonlinear_arith)
                requires
                    1 <= i <= grid_width - 2,
                    1 <= j <= grid_width - 2,
            ;
            assert(i * grid_width >= grid_width) by (nonlinear_arith)
                requires
                    1 <= i,
            ;
            let center_cell = i * grid_width + j;
            let local_ids = get_local_cell_ids(center_cell, grid_width);
            let ghost ids = local_ids@.map_values(|x: u32| x as int);
            let mut collision_candidates: Vec<usize> = Vec::new();
            let mut m: usize = 0;
            while m < 9
                invariant
                    cl == cell_lists(cells@),
                    cells@.len() == grid_width * grid_width,
                    ids == local_cell_ids(center_cell as int, gw),
                    ids == local_ids@.map_values(|x: u32| x as int),
                    local_ids@.len() == 9,
                    forall|k: int| 0 <= k < 9 ==> 0 <= #[trigger] ids[k] < cells@.len(),
                    m <= 9,
                    collision_candidates@ == concat_cells(cl, ids, m as int),
                decreases 9 - m,
            {
                let cell = &cells[local_ids[m] as usize];
                let len = cell.len();
                let mut k: usize = 0;
                let ghost before = collision_candidates@;
                while k < len
                    invariant
                        len == cell@.len(),
                        k <= len,
                        collision_candidates@ == before + cell@.take(k as int),
                    decreases len - k,
                {
                    collision_candidates.push(cell[k]);
                    assert(cell@.take(k as int).push(cell@[k as int]) =~= cell@.take(k + 1));
                    k = k + 1;
                }
                assert(cell@.take(len as int) =~= cell@);
                assert(cl[ids[m as int]] == cell@);
                m = m + 1;
            }
            assert(collision_candidates@ == neighborhood(cl, gw, center_cell as int));
            let ghost prev = all_candidates@;
            if collision_candidates.len() > 1 {
                all_candidates.push(CollisionCandidates::new(collision_candidates));
                assert(candidate_lists(all_candidates@) =~= candidate_lists(prev).push(
                    neighborhood(cl, gw, center_cell as int),
                ));
            }
            assert(row_candidates(cl, gw, i as int, j + 1) == (if neighborhood(cl, gw, center_cell as int).len() > 1 {
                row_candidates(cl, gw, i as int, j as int).push(neighborhood(cl, gw, center_cell as int))
            } else {
                row_candidates(cl, gw, i as int, j as int)
            }));
            j = j + 1;
        }
        assert(grid_rows(cl, gw, i + 1) == grid_rows(cl, gw, i as int) + row_candidates(cl, gw, i as int, gw - 1));
        i = i + 1;
    }
    assert forall|ci: int, cj: int|
        1 <= ci <= grid_width - 2 && 1 <= cj <= grid_width - 2 && (#[trigger] neighborhood(
            cl,
            gw,
            ci * grid_width + cj,
        )).len() > 1 implies candidate_lists(all_candidates@).contains(
        neighborhood(cl, gw, ci * grid_width + cj),
    ) by {
        lemma_row_keeps(cl, gw, ci, gw - 1, cj);
        lemma_rows_keep(cl, gw, gw - 1, ci, neighborhood(cl, gw, ci * gw + cj));
    }
    if grid_width >= 2 {
        proof {
            lemma_grid_centres(cl, gw, gw - 1);
        }
    }
    all_candidates
}

/// The candidates of the block-map broad phase for bodies whose grid cells
/// are given: each body goes into the list of its cell, and each cell off the
/// border lists the bodies of its 3 x 3 block, where there are more than one.
pub fn collision_detection_on_cells(cell_coords: &Vec<(u32, u32)>, grid_width: u32) -> (r: Vec<
    CollisionCandidates,
>)
    requires
        grid_width >= 1,
        grid_width * grid_width <= u32::MAX,
        forall|i: int|
            0 <= i < cell_coords@.len() ==> body_cell(cell_coords@, grid_width, i) < grid_width
                * grid_width,
    ensures
        candidate_lists(r@) == grid_candidates(
            assigned_cells(cell_coords@, grid_width),
            grid_width as int,
        ),
        lists_match_centres(
            assigned_cells(cell_coords@, grid_width),
            grid_width as int,
            candidate_lists(r@),
            grid_centres(assigned_cells(cell_coords@, grid_width), grid_width as int, grid_width - 1),
        ),
        grid_width >= 3 && (forall|i: int|
            0 <= i < cell_coords@.len() ==> (#[trigger] cell_coords@[i]).0 < grid_width
                && cell_coords@[i].1 < grid_width) ==> forall|a: int, b: int|
            #![trigger cell_coords@[a], cell_coords@[b]]
            0 <= a < cell_coords@.len() && 0 <= b < cell_coords@.len() && a != b && -1
                <= cell_coords@[a].0 - cell_coords@[b].0 <= 1 && -1 <= cell_coords@[a].1
                - cell_coords@[b].1 <= 1 ==> exists|k: int|
                0 <= k < r@.len() && (#[trigger] r@[k].indices@.contains(a as usize)) && #[trigger] r@[
                    k
                ].indices@.contains(b as usize),
{
    let cells = assign_object_to_cell(cell_coords, grid_width);
    assert(cell_lists(cells@) =~= assigned_cells(cell_coords@, grid_width));
    let r = collision_candidates_from_cells(&cells, grid_width);
    let num_bodies = cell_coords.len();
    proof {
        let coords = cell_coords@;
        assert(coords.len() == num_bodies);
        if grid_width >= 3 && (forall|i: int|
            0 <= i < coords.len() ==> (#[trigger] coords[i]).0 < grid_width && coords[i].1
                < grid_width) {
            assert forall|a: int, b: int|
                #![trigger coords[a], coords[b]]
                0 <= a < coords.len() && 0 <= b < coords.len() && a != b && -1 <= coords[a].0
                    - coords[b].0 <= 1 && -1 <= coords[a].1 - coords[b].1 <= 1 implies exists|k: int|
                0 <= k < r@.len() && (#[trigger] r@[k].indices@.contains(a as usize))
                    && #[trigger] r@[k].indices@.contains(b as usize) by {
                lemma_adjacent_bodies_are_candidates(coords, grid_width, a, b);
                let g = grid_candidates(assigned_cells(coords, grid_width), grid_width as int);
                let k = choose|k: int|
                    0 <= k < g.len() && (#[trigger] g[k]).contains(a as usize) && g[k].contains(
                        b as usize,
                    );
                assert(candidate_lists(r@)[k] == r@[k].indices@);
            }
        }
    }
    r
}

/// The cell lists of the grid as `assign_object_to_cell` fills them.
pub open spec fn assigned_cells(coords: Seq<(u32, u32)>, grid_width: u32) -> Seq<Seq<usize>> {
    Seq::new(
        (grid_width * grid_width) as nat,
        |c: int| bodies_in_cell(coords, grid_width, coords.len() as int, c),
    )
}

proof fn lemma_concat_contains(cells: Seq<Seq<usize>>, ids: Seq<int>, m: int, k: int, x: usize)
    requires
        0 <= k < m,
        cells[ids[k]].contains(x),
    ensures
        concat_cells(cells, ids, m).contains(x),
    decreases m,
{
    if k < m - 1 {
        lemma_concat_contains(cells, ids, m - 1, k, x);
        let prev = concat_cells(cells, ids, m - 1);
        let idx = choose|idx: int| 0 <= idx < prev.len() && prev[idx] == x;
        assert((prev + cells[ids[m - 1]])[idx] == x);
    } else {
        let prev = concat_cells(cells, ids, m - 1);
        let last = cells[ids[m - 1]];
        let idx = choose|idx: int| 0 <= idx < last.len() && last[idx] == x;
        assert((prev + last)[prev.len() + idx] == x);
    }
}

proof fn lemma_row_keeps(cells: Seq<Seq<usize>>, grid_width: int, i: int, j: int, jc: int)
    requires
        1 <= jc < j,
        neighborhood(cells, grid_width, i * grid_width + jc).len() > 1,
    ensures
        row_candidates(cells, grid_width, i, j).contains(
            neighborhood(cells, grid_width, i * grid_width + jc),
        ),
    decreases j,
{
    let nb = neighborhood(cells, grid_width, i * grid_width + jc);
    let prev = row_candidates(cells, grid_width, i, j - 1);
    if jc < j - 1 {
        lemma_row_keeps(cells, grid_width, i, j - 1, jc);
        let idx = choose|idx: int| 0 <= idx < prev.len() && prev[idx] == nb;
        let cur = row_candidates(cells, grid_width, i, j);
        assert(cur[idx] == nb);
    } else {
        let cur = row_candidates(cells, grid_width, i, j);
        assert(cur[prev.len() as int] == nb);
    }
}

proof fn lemma_rows_keep(cells: Seq<Seq<usize>>, grid_width: int, i: int, ic: int, x: Seq<usize>)
    requires
        1 <= ic < i,
        row_candidates(cells, grid_width, ic, grid_width - 1).contains(x),
    ensures
        grid_rows(cells, grid_width, i).contains(x),
    decreases i,
{
    let prev = grid_rows(cells, grid_width, i - 1);
    let row = row_candidates(cells, grid_width, i - 1, grid_width - 1);
    assert(grid_rows(cells, grid_width, i) == prev + row);
    if ic < i - 1 {
        lemma_rows_keep(cells, grid_width, i - 1, ic, x);
        let idx = choose|idx: int| 0 <= idx < prev.len() && prev[idx] == x;
        assert((prev + row)[idx] == x);
    } else {
        let idx = choose|idx: int| 0 <= idx < row.len() && row[idx] == x;
        assert((prev + row)[prev.len() + idx] == x);
    }
}

proof fn lemma_body_in_its_cell(coords: Seq<(u32, u32)>, grid_width: u32, a: int)
    requires
        0 <= a < coords.len(),
        coords.len() <= usize::MAX,
    ensures
        bodies_in_cell(coords, grid_width, coords.len() as int, body_cell(coords, grid_width, a)).contains(
            a as usize,
        ),
{
    let c = body_cell(coords, grid_width, a);
    let all = Seq::new(coords.len() as nat, |i: int| i as usize);
    let pred = |b: usize| body_cell(coords, grid_width, b as int) == c;
    assert(all[a] == a as usize);
    all.lemma_filter_contains(pred, a);
}

proof fn lemma_two_elements_len(s: Seq<usize>, a: usize, b: usize)
    requires
        s.contains(a),
        s.contains(b),
        a != b,
    ensures
        s.len() > 1,
{
    let ia = choose|i: int| 0 <= i < s.len() && s[i] == a;
    let ib = choose|i: int| 0 <= i < s.len() && s[i] == b;
    assert(ia != ib);
}

/// The cell `(x, y)` next to the centre `(cj, ci)` is entry
/// `3 * (y - ci + 1) + (x - cj + 1)` of the centre's block.
proof fn lemma_block_index(gw: int, ci: int, cj: int, x: int, y: int)
    requires
        1 <= ci <= gw - 2,
        1 <= cj <= gw - 2,
        0 <= x < gw,
        0 <= y < gw,
        -1 <= x - cj <= 1,
        -1 <= y - ci <= 1,
    ensures
        y * gw + x == local_cell_ids(ci * gw + cj, gw)[3 * (y - ci + 1) + (x - cj + 1)],
        0 <= y * gw + x < gw * gw,
{
    assert(0 <= y * gw + x < gw * gw) by (nonlinear_arith)
        requires
            0 <= x < gw,
            0 <= y < gw,
    ;
    if y == ci - 1 {
        assert(y * gw == ci * gw - gw) by (nonlinear_arith)
            requires
                y == ci - 1,
        ;
    } else if y == ci {
    } else {
        assert(y * gw == ci * gw + gw) by (nonlinear_arith)
            requires
                y == ci + 1,
        ;
    }
}

/// Bodies in touching grid cells are never missed: on a grid of at least
/// 3 x 3 cells, two bodies whose cells are at most one column and one row
/// apart appear together in some candidate list.
pub proof fn lemma_adjacent_bodies_are_candidates(
    coords: Seq<(u32, u32)>,
    grid_width: u32,
    a: int,
    b: int,
)
    requires
        grid_width >= 3,
        grid_width * grid_width <= u32::MAX,
        coords.len() <= usize::MAX,
        forall|i: int|
            0 <= i < coords.len() ==> (#[trigger] coords[i]).0 < grid_width && coords[i].1
                < grid_width,
        0 <= a < coords.len(),
        0 <= b < coords.len(),
        a != b,
        -1 <= coords[a].0 - coords[b].0 <= 1,
        -1 <= coords[a].1 - coords[b].1 <= 1,
    ensures
        exists|k: int|
            0 <= k < grid_candidates(assigned_cells(coords, grid_width), grid_width as int).len()
                && (#[trigger] grid_candidates(assigned_cells(coords, grid_width), grid_width as int)[k]).contains(
                a as usize,
            ) && grid_candidates(assigned_cells(coords, grid_width), grid_width as int)[k].contains(
                b as usize,
            ),
{
    let gw = grid_width as int;
    let cells = assigned_cells(coords, grid_width);
    let (xa, ya) = (coords[a].0 as int, coords[a].1 as int);
    let (xb, yb) = (coords[b].0 as int, coords[b].1 as int);
    let lo_y = if ya < yb { ya } else { yb };
    let lo_x = if xa < xb { xa } else { xb };
    let ci = if lo_y < 1 { 1 } else if lo_y > gw - 2 { gw - 2 } else { lo_y };
    let cj = if lo_x < 1 { 1 } else if lo_x > gw - 2 { gw - 2 } else { lo_x };
    let c = ci * gw + cj;
    let ids = local_cell_ids(c, gw);
    lemma_block_index(gw, ci, cj, xa, ya);
    lemma_block_index(gw, ci, cj, xb, yb);
    let ka = 3 * (ya - ci + 1) + (xa - cj + 1);
    let kb = 3 * (yb - ci + 1) + (xb - cj + 1);
    assert(ya * gw + xa == ids[ka]);
    assert(yb * gw + xb == ids[kb]);
    lemma_body_in_its_cell(coords, grid_width, a);
    lemma_body_in_its_cell(coords, grid_width, b);
    assert(cells[ids[ka]] == bodies_in_cell(coords, grid_width, coords.len() as int, body_cell(coords, grid_width, a)));
    assert(cells[ids[kb]] == bodies_in_cell(coords, grid_width, coords.len() as int, body_cell(coords, grid_width, b)));
    lemma_concat_contains(cells, ids, 9, ka, a as usize);
    lemma_concat_contains(cells, ids, 9, kb, b as usize);
    let nb = neighborhood(cells, gw, c);
    lemma_two_elements_len(nb, a as usize, b as usize);
    lemma_row_keeps(cells, gw, ci, gw - 1, cj);
    lemma_rows_keep(cells, gw, gw - 1, ci, nb);
    let g = grid_candidates(cells, gw);
    let k = choose|k: int| 0 <= k < g.len() && g[k] == nb;
    assert(g[k].contains(a as usize));
}

} // verus!
