//! The generation update: Conway's rule applied synchronously, every cell of
//! the next generation computed from the same prior generation.

use vstd::prelude::*;
use crate::grid::cell_alive;
use crate::grid::grid_wf;
use crate::grid::my_count_adjacent_cells;
use crate::grid::neighbor_count;

verus! {

/// Conway's rule for one cell: a live cell survives on 2 or 3 live
/// neighbors, else it dies; a dead cell is born on exactly 3.
pub open spec fn next_state(alive: bool, n: int) -> bool {
    if alive {
        n == 2 || n == 3
    } else {
        n == 3
    }
}

/// The grid after one synchronous generation update: every cell of the
/// result is computed from the prior grid alone.
pub open spec fn step_spec(height: int, width: int, cells: Seq<Seq<i32>>) -> Seq<Seq<i32>> {
    Seq::new(
        height as nat,
        |y: int|
            Seq::new(
                width as nat,
                |x: int|
                    if next_state(
                        cell_alive(cells, y, x),
                        neighbor_count(height, width, cells, y, x),
                    ) {
                        1i32
                    } else {
                        0i32
                    },
            ),
    )
}

/// The grid after `n` synchronous generation updates.
pub open spec fn step_n(height: int, width: int, cells: Seq<Seq<i32>>, n: nat) -> Seq<Seq<i32>>
    decreases n,
{
    if n == 0 {
        cells
    } else {
        step_spec(height, width, step_n(height, width, cells, (n - 1) as nat))
    }
}

/// One step keeps the grid well formed: the dimensions are unchanged and
/// every new cell holds 0 or 1.
pub proof fn lemma_step_wf(height: int, width: int, cells: Seq<Seq<i32>>)
    requires
        height >= 0,
        width >= 0,
    ensures
        grid_wf(height, width, step_spec(height, width, cells)),
{
}

/// Replaces the grid by the next generation: for each cell the new state is
/// Conway's rule applied to the old state and the old neighbor count.
pub fn my_update_cells(height: usize, width: usize, cell: &mut Vec<Vec<i32>>)
    requires
        grid_wf(height as int, width as int, old(cell).deep_view()),
        height <= isize::MAX as usize,
        width <= isize::MAX as usize,
    ensures
        final(cell).deep_view() == step_spec(height as int, width as int, old(cell).deep_view()),
        grid_wf(height as int, width as int, final(cell).deep_view()),
{
    let ghost prior = cell.deep_view();
    let mut next: Vec<Vec<i32>> = Vec::new();
    for y in 0..height
        invariant
            grid_wf(height as int, width as int, cell.deep_view()),
            cell.deep_view() == prior,
            height <= isize::MAX as usize,
            width <= isize::MAX as usize,
            next.deep_view().len() == y,
            forall|i: int|
                0 <= i < y ==> #[trigger] next.deep_view()[i] == step_spec(
                    height as int,
                    width as int,
                    prior,
                )[i],
    {
        let mut row: Vec<i32> = Vec::new();
        for x in 0..width
            invariant
                grid_wf(height as int, width as int, cell.deep_view()),
                cell.deep_view() == prior,
                height <= isize::MAX as usize,
                width <= isize::MAX as usize,
                y < height,
                row@.len() == x,
            forall|j: int|
                0 <= j < x ==> #[trigger] row@[j] == step_spec(
                    height as int,
                    width as int,
                    prior,
                )[y as int][j],
        {
            let n = my_count_adjacent_cells(height, width, cell, y as isize, x as isize);
            assert(cell.deep_view()[y as int] == cell@[y as int].deep_view());
            let alive = cell[y][x] != 0;
            let state: i32 = if (alive && (n == 2 || n == 3)) || (!alive && n == 3) {
                1
            } else {
                0
            };
            row.push(state);
        }
        let ghost pre = next.deep_view();
        next.push(row);
        proof {
            assert(next.deep_view() =~= pre.push(row.deep_view()));
            assert(row.deep_view() =~= row@);
            assert(row@ =~= step_spec(height as int, width as int, prior)[y as int]);
        }
    }
    *cell = next;
    proof {
        assert(cell.deep_view() =~~= step_spec(height as int, width as int, prior));
        lemma_step_wf(height as int, width as int, prior);
    }
}

/// No spontaneous births: a step applied to an all-dead grid yields an
/// all-dead grid, since every cell then has zero live neighbors.
pub proof fn lemma_dead_grid_stays_dead(height: int, width: int, cells: Seq<Seq<i32>>)
    requires
        grid_wf(height, width, cells),
        forall|y: int, x: int|
            0 <= y < height && 0 <= x < width ==> !cell_alive(cells, y, x),
    ensures
        forall|y: int, x: int|
            0 <= y < height && 0 <= x < width ==> !cell_alive(
                step_spec(height, width, cells),
                y,
                x,
            ),
{
    assert forall|y: int, x: int|
        0 <= y < height && 0 <= x < width implies !cell_alive(
        step_spec(height, width, cells),
        y,
        x,
    ) by {
        assert(neighbor_count(height, width, cells, y, x) == 0);
    }
}

/// The birth rule: a dead cell with exactly 3 live neighbors becomes alive
/// after one step; with 2 or with 4 it stays dead.
pub proof fn lemma_birth_rule(height: int, width: int, cells: Seq<Seq<i32>>, y: int, x: int)
    requires
        0 <= y < height,
        0 <= x < width,
        !cell_alive(cells, y, x),
    ensures
        neighbor_count(height, width, cells, y, x) == 3 ==> cell_alive(
            step_spec(height, width, cells),
            y,
            x,
        ),
        neighbor_count(height, width, cells, y, x) == 2 ==> !cell_alive(
            step_spec(height, width, cells),
            y,
            x,
        ),
        neighbor_count(height, width, cells, y, x) == 4 ==> !cell_alive(
            step_spec(height, width, cells),
            y,
            x,
        ),
{
}

/// The survival rule: a live cell with 0 or 1 live neighbors dies, with 4 or
/// more dies, and with 2 or 3 survives.
pub proof fn lemma_survival_rule(height: int, width: int, cells: Seq<Seq<i32>>, y: int, x: int)
    requires
        0 <= y < height,
        0 <= x < width,
        cell_alive(cells, y, x),
    ensures
        neighbor_count(height, width, cells, y, x) <= 1 ==> !cell_alive(
            step_spec(height, width, cells),
            y,
            x,
        ),
        neighbor_count(height, width, cells, y, x) >= 4 ==> !cell_alive(
            step_spec(height, width, cells),
            y,
            x,
        ),
        neighbor_count(height, width, cells, y, x) == 2 || neighbor_count(
            height,
            width,
            cells,
            y,
            x,
        ) == 3 ==> cell_alive(step_spec(height, width, cells), y, x),
{
}

/// The live cells of the grid are exactly a 2x2 block with top-left corner
/// at `(r, c)`.
pub open spec fn block_only(height: int, width: int, cells: Seq<Seq<i32>>, r: int, c: int) -> bool {
    forall|y: int, x: int|
        0 <= y < height && 0 <= x < width ==> (cell_alive(cells, y, x) <==> (r <= y <= r + 1 && c
            <= x <= c + 1))
}

/// A block placed off the grid border is unchanged by one step: each of its
/// four cells has exactly 3 live neighbors and survives, and no outside cell
/// reaches 3.
pub proof fn lemma_block_stable(height: int, width: int, cells: Seq<Seq<i32>>, r: int, c: int)
    requires
        grid_wf(height, width, cells),
        1 <= r,
        r + 1 < height - 1,
        1 <= c,
        c + 1 < width - 1,
        block_only(height, width, cells, r, c),
    ensures
        step_spec(height, width, cells) == cells,
{
    assert forall|y: int, x: int|
        0 <= y < height && 0 <= x < width implies #[trigger] step_spec(height, width, cells)[y][x]
        == cells[y][x] by {
        assert(cells[y][x] == 0 || cells[y][x] == 1);
        assert(cell_alive(cells, y, x) <==> (r <= y <= r + 1 && c <= x <= c + 1));
    }
    assert(step_spec(height, width, cells) =~~= cells);
}

/// A block placed off the grid border is unchanged by any number of steps.
pub proof fn lemma_block_stable_n(
    height: int,
    width: int,
    cells: Seq<Seq<i32>>,
    r: int,
    c: int,
    n: nat,
)
    requires
        grid_wf(height, width, cells),
        1 <= r,
        r + 1 < height - 1,
        1 <= c,
        c + 1 < width - 1,
        block_only(height, width, cells, r, c),
    ensures
        step_n(height, width, cells, n) == cells,
    decreases n,
{
    if n > 0 {
        lemma_block_stable_n(height, width, cells, r, c, (n - 1) as nat);
        lemma_block_stable(height, width, cells, r, c);
    }
}

/// The live cells of the grid are exactly three in a row: row `r`, columns
/// `c - 1` through `c + 1`.
pub open spec fn horizontal_triple_only(
    height: int,
    width: int,
    cells: Seq<Seq<i32>>,
    r: int,
    c: int,
) -> bool {
    forall|y: int, x: int|
        0 <= y < height && 0 <= x < width ==> (cell_alive(cells, y, x) <==> (y == r && c - 1 <= x
            <= c + 1))
}

/// The live cells of the grid are exactly three in a column: column `c`,
/// rows `r - 1` through `r + 1`.
pub open spec fn vertical_triple_only(
    height: int,
    width: int,
    cells: Seq<Seq<i32>>,
    r: int,
    c: int,
) -> bool {
    forall|y: int, x: int|
        0 <= y < height && 0 <= x < width ==> (cell_alive(cells, y, x) <==> (x == c && r - 1 <= y
            <= r + 1))
}

/// One step turns a horizontal blinker, placed so that neither orientation
/// touches the border, into the vertical one around the same center.
pub proof fn lemma_blinker_turns_vertical(
    height: int,
    width: int,
    cells: Seq<Seq<i32>>,
    r: int,
    c: int,
)
    requires
        grid_wf(height, width, cells),
        2 <= r < height - 2,
        2 <= c < width - 2,
        horizontal_triple_only(height, width, cells, r, c),
    ensures
        vertical_triple_only(height, width, step_spec(height, width, cells), r, c),
{
    assert forall|y: int, x: int|
        0 <= y < height && 0 <= x < width implies (cell_alive(
        step_spec(height, width, cells),
        y,
        x,
    ) <==> (x == c && r - 1 <= y <= r + 1)) by {
        assert(cell_alive(cells, y, x) <==> (y == r && c - 1 <= x <= c + 1));
    }
}

/// One step turns a vertical blinker, placed so that neither orientation
/// touches the border, into the horizontal one around the same center.
pub proof fn lemma_blinker_turns_horizontal(
    height: int,
    width: int,
    cells: Seq<Seq<i32>>,
    r: int,
    c: int,
)
    requires
        grid_wf(height, width, cells),
        2 <= r < height - 2,
        2 <= c < width - 2,
        vertical_triple_only(height, width, cells, r, c),
    ensures
        horizontal_triple_only(height, width, step_spec(height, width, cells), r, c),
{
    assert forall|y: int, x: int|
        0 <= y < height && 0 <= x < width implies (cell_alive(
        step_spec(height, width, cells),
        y,
        x,
    ) <==> (y == r && c - 1 <= x <= c + 1)) by {
        assert(cell_alive(cells, y, x) <==> (x == c && r - 1 <= y <= r + 1));
    }
}

/// A blinker returns to its starting state after two steps: the first step
/// turns it perpendicular, the second turns it back, and the grid holds no
/// other live cell at any point.
pub proof fn lemma_blinker_period_two(
    height: int,
    width: int,
    cells: Seq<Seq<i32>>,
    r: int,
    c: int,
)
    requires
        grid_wf(height, width, cells),
        2 <= r < height - 2,
        2 <= c < width - 2,
        horizontal_triple_only(height, width, cells, r, c),
    ensures
        vertical_triple_only(height, width, step_n(height, width, cells, 1), r, c),
        step_n(height, width, cells, 2) == cells,
{
    lemma_blinker_turns_vertical(height, width, cells, r, c);
    lemma_step_wf(height, width, cells);
    let once = step_spec(height, width, cells);
    lemma_blinker_turns_horizontal(height, width, once, r, c);
    let twice = step_spec(height, width, once);
    lemma_step_wf(height, width, once);
    reveal_with_fuel(step_n, 3);
    assert(step_n(height, width, cells, 1) == once);
    assert(step_n(height, width, cells, 2) == twice);
    assert forall|y: int, x: int|
        0 <= y < height && 0 <= x < width implies #[trigger] twice[y][x] == cells[y][x] by {
        assert(cell_alive(twice, y, x) <==> (y == r && c - 1 <= x <= c + 1));
        assert(cell_alive(cells, y, x) <==> (y == r && c - 1 <= x <= c + 1));
        assert(twice[y][x] == 0 || twice[y][x] == 1);
        assert(cells[y][x] == 0 || cells[y][x] == 1);
    }
    assert(twice =~~= cells);
}

} // verus!
