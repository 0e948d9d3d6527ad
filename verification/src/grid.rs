//! The cell-state container: a rectangular array of binary cells and the
//! eight-neighbor count with hard (non-wrapping) edges.

use vstd::prelude::*;

verus! {

/// A well-formed grid has exactly `height` rows, each of exactly `width`
/// cells, and every cell holds 0 (dead) or 1 (alive).
pub open spec fn grid_wf(height: int, width: int, cells: Seq<Seq<i32>>) -> bool {
    &&& cells.len() == height
    &&& forall|y: int| 0 <= y < height ==> (#[trigger] cells[y]).len() == width
    &&& forall|y: int, x: int|
        0 <= y < height && 0 <= x < width ==> #[trigger] cells[y][x] == 0 || cells[y][x] == 1
}

/// A cell is alive when it holds a nonzero state.
pub open spec fn cell_alive(cells: Seq<Seq<i32>>, y: int, x: int) -> bool {
    cells[y][x] != 0
}

/// The set of in-bounds live cells of a grid, as (row, column) pairs.
pub open spec fn live_set(height: int, width: int, cells: Seq<Seq<i32>>) -> Set<(int, int)> {
    Set::new(
        |p: (int, int)| 0 <= p.0 < height && 0 <= p.1 < width && cell_alive(cells, p.0, p.1),
    )
}

/// The contribution of position `(y, x)` to a neighbor count: 1 when the
/// position lies inside the grid and its cell is alive, else 0. A position
/// outside `[0, height) x [0, width)` never contributes: the grid has hard
/// edges, not wraparound.
pub open spec fn live_at(height: int, width: int, cells: Seq<Seq<i32>>, y: int, x: int) -> int {
    if 0 <= y < height && 0 <= x < width && cell_alive(cells, y, x) {
        1int
    } else {
        0int
    }
}

/// The number of live cells among the eight positions surrounding `(y, x)`,
/// counting only positions inside the grid.
pub open spec fn neighbor_count(
    height: int,
    width: int,
    cells: Seq<Seq<i32>>,
    y: int,
    x: int,
) -> int {
    live_at(height, width, cells, y - 1, x - 1) + live_at(height, width, cells, y - 1, x)
        + live_at(height, width, cells, y - 1, x + 1) + live_at(height, width, cells, y, x - 1)
        + live_at(height, width, cells, y, x + 1) + live_at(height, width, cells, y + 1, x - 1)
        + live_at(height, width, cells, y + 1, x) + live_at(height, width, cells, y + 1, x + 1)
}

/// A neighbor count never exceeds 8 and never goes below 0: only the eight
/// surrounding positions are consulted, each contributing 0 or 1, and a
/// position outside the grid contributes 0.
pub proof fn lemma_neighbor_count_bounds(
    height: int,
    width: int,
    cells: Seq<Seq<i32>>,
    y: int,
    x: int,
)
    ensures
        0 <= neighbor_count(height, width, cells, y, x) <= 8,
{
}

/// Reads the contribution of one position, treating positions outside the
/// grid as dead.
fn live_contribution(height: usize, width: usize, cell: &Vec<Vec<i32>>, y: i128, x: i128) -> (r:
    i32)
    requires
        grid_wf(height as int, width as int, cell.deep_view()),
    ensures
        r == live_at(height as int, width as int, cell.deep_view(), y as int, x as int),
{
    if 0 <= y && y < height as i128 && 0 <= x && x < width as i128 {
        let yy = y as usize;
        let xx = x as usize;
        assert(cell.deep_view()[yy as int] == cell@[yy as int].deep_view());
        if cell[yy][xx] != 0 {
            1
        } else {
            0
        }
    } else {
        0
    }
}

/// Sums the states of the up-to-8 cells surrounding `(y, x)`. Any neighbor
/// position outside the grid is treated as dead, so out-of-range queries are
/// defined, not rejected.
pub fn my_count_adjacent_cells(
    height: usize,
    width: usize,
    cell: &Vec<Vec<i32>>,
    y: isize,
    x: isize,
) -> (count: i32)
    requires
        grid_wf(height as int, width as int, cell.deep_view()),
    ensures
        count == neighbor_count(height as int, width as int, cell.deep_view(), y as int, x as int),
        0 <= count <= 8,
{
    let yw = y as i128;
    let xw = x as i128;
    let mut count: i32 = 0;
    count = count + live_contribution(height, width, cell, yw - 1, xw - 1);
    count = count + live_contribution(height, width, cell, yw - 1, xw);
    count = count + live_contribution(height, width, cell, yw - 1, xw + 1);
    count = count + live_contribution(height, width, cell, yw, xw - 1);
    count = count + live_contribution(height, width, cell, yw, xw + 1);
    count = count + live_contribution(height, width, cell, yw + 1, xw - 1);
    count = count + live_contribution(height, width, cell, yw + 1, xw);
    count = count + live_contribution(height, width, cell, yw + 1, xw + 1);
    count
}

/// Builds an all-dead grid of the given dimensions.
pub fn new_grid(height: usize, width: usize) -> (cell: Vec<Vec<i32>>)
    ensures
        grid_wf(height as int, width as int, cell.deep_view()),
        forall|y: int, x: int|
            0 <= y < height && 0 <= x < width ==> !cell_alive(cell.deep_view(), y, x),
{
    let mut cell: Vec<Vec<i32>> = Vec::new();
    for _y in 0..height
        invariant
            cell.deep_view().len() == _y,
            forall|i: int| 0 <= i < _y ==> (#[trigger] cell.deep_view()[i]).len() == width,
            forall|i: int, j: int|
                0 <= i < _y && 0 <= j < width ==> #[trigger] cell.deep_view()[i][j] == 0,
    {
        let mut row: Vec<i32> = Vec::new();
        for _x in 0..width
            invariant
                row.len() == _x,
                forall|j: int| 0 <= j < _x ==> row[j] == 0,
        {
            row.push(0);
        }
        let ghost pre = cell.deep_view();
        cell.push(row);
        proof {
            assert(cell.deep_view() =~= pre.push(row.deep_view()));
            assert(row.deep_view() =~= row@);
        }
    }
    cell
}

/// Writes one cell state; the coordinates must lie inside the grid.
pub fn set_cell(height: usize, width: usize, cell: &mut Vec<Vec<i32>>, y: usize, x: usize, alive:
    bool)
    requires
        grid_wf(height as int, width as int, old(cell).deep_view()),
        y < height,
        x < width,
    ensures
        grid_wf(height as int, width as int, final(cell).deep_view()),
        cell_alive(final(cell).deep_view(), y as int, x as int) == alive,
        forall|i: int, j: int|
            0 <= i < height && 0 <= j < width && !(i == y && j == x)
                ==> #[trigger] final(cell).deep_view()[i][j] == old(cell).deep_view()[i][j],
{
    let state: i32 = if alive {
        1
    } else {
        0
    };
    proof {
        assert(cell.deep_view()[y as int] == cell@[y as int].deep_view());
        assert(cell@[y as int]@.len() == cell@[y as int].deep_view().len());
    }
    cell[y][x] = state;
    proof {
        assert(cell.deep_view() =~~= old(cell).deep_view().update(
            y as int,
            old(cell).deep_view()[y as int].update(x as int, state),
        ));
    }
}

/// Reads one cell state; the coordinates must lie inside the grid.
pub fn cell_at(height: usize, width: usize, cell: &Vec<Vec<i32>>, y: usize, x: usize) -> (alive:
    bool)
    requires
        grid_wf(height as int, width as int, cell.deep_view()),
        y < height,
        x < width,
    ensures
        alive == cell_alive(cell.deep_view(), y as int, x as int),
{
    assert(cell.deep_view()[y as int] == cell@[y as int].deep_view());
    cell[y][x] != 0
}

} // verus!
