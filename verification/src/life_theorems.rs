//! What holds of every Life grid: reads and writes agree, the grid is a
//! torus, the side never changes, and each cell of the next generation
//! follows from the cell and its eight neighbours.

use crate::layout::{column_of, lemma_cell_of_index, lemma_wrap_shift, lemma_wrap_turns, row_of};
use crate::life::{birth_color, Cell, Color, GridView};
use vstd::prelude::*;

verus! {

/// A cell that has just been written reads back as the value written, and
/// every cell that is stored elsewhere reads as before.
pub proof fn lemma_get_after_set(grid: GridView, x: int, y: int, value: Cell, ox: int, oy: int)
    requires
        grid.wf(),
    ensures
        grid.with_cell(x, y, value).at(x, y) == value,
        grid.index_of(ox, oy) != grid.index_of(x, y) ==> grid.with_cell(x, y, value).at(ox, oy)
            == grid.at(ox, oy),
{
    grid.lemma_index_of_in_range(x, y);
    grid.lemma_index_of_in_range(ox, oy);
}

/// The grid is a torus: going round it any number of times in either
/// direction leads back to the same cell.
pub proof fn lemma_torus(grid: GridView, x: int, y: int, k: int, m: int)
    requires
        grid.wf(),
    ensures
        grid.index_of(x + k * grid.size, y + m * grid.size) == grid.index_of(x, y),
        grid.at(x + k * grid.size, y + m * grid.size) == grid.at(x, y),
{
    lemma_wrap_turns(grid.size, x, k);
    lemma_wrap_turns(grid.size, y, m);
}

/// A write keeps the side of the grid and leaves it with exactly
/// `size * size` cells.
pub proof fn lemma_set_keeps_size(grid: GridView, x: int, y: int, value: Cell)
    requires
        grid.wf(),
    ensures
        grid.with_cell(x, y, value).wf(),
        grid.with_cell(x, y, value).size == grid.size,
{
    grid.lemma_index_of_in_range(x, y);
}

/// A glider keeps the side of the grid and leaves it with exactly
/// `size * size` cells.
pub proof fn lemma_glider_keeps_size(grid: GridView, x: int, y: int, color: Color)
    requires
        grid.wf(),
    ensures
        grid.with_glider(x, y, color).wf(),
        grid.with_glider(x, y, color).size == grid.size,
{
    grid.lemma_index_of_in_range(x + 1, y);
    grid.lemma_index_of_in_range(x + 2, y + 1);
    grid.lemma_index_of_in_range(x, y + 2);
    grid.lemma_index_of_in_range(x + 1, y + 2);
    grid.lemma_index_of_in_range(x + 2, y + 2);
}

/// Before and after every step the grid has the same side and exactly
/// `size * size` cells.
pub proof fn lemma_step_keeps_size(grid: GridView)
    requires
        grid.wf(),
    ensures
        grid.stepped().wf(),
        grid.stepped().size == grid.size,
{
}

/// The eight neighbours of a cell are the same wherever on the torus its
/// coordinates are taken from.
proof fn lemma_neighbors_wrap(grid: GridView, x: int, y: int)
    requires
        grid.wf(),
    ensures
        grid.alive_neighbors(x % grid.size, y % grid.size) == grid.alive_neighbors(x, y),
{
    let size = grid.size;
    lemma_wrap_shift(size, x, -1);
    lemma_wrap_shift(size, x, 0);
    lemma_wrap_shift(size, x, 1);
    lemma_wrap_shift(size, y, -1);
    lemma_wrap_shift(size, y, 0);
    lemma_wrap_shift(size, y, 1);
}

/// Each cell of the next generation is what the rule makes of the cell and
/// the number of its live neighbours. So a live cell with fewer than two or
/// more than three live neighbours dies, one without any among them; a live
/// cell with two or three stays as it is, colour included; a dead cell with
/// exactly three comes to life in the birth colour; and every other dead
/// cell stays dead.
pub proof fn lemma_rule(grid: GridView, x: int, y: int)
    requires
        grid.wf(),
    ensures
        grid.stepped().at(x, y) == GridView::fate(grid.at(x, y), grid.alive_neighbors(x, y)),
        grid.at(x, y) is Alive && grid.alive_neighbors(x, y) == 0 ==> grid.stepped().at(x, y)
            == Cell::Dead,
        grid.at(x, y) is Alive && (grid.alive_neighbors(x, y) < 2 || grid.alive_neighbors(x, y)
            > 3) ==> grid.stepped().at(x, y) == Cell::Dead,
        grid.at(x, y) is Alive && 2 <= grid.alive_neighbors(x, y) <= 3 ==> grid.stepped().at(x, y)
            == grid.at(x, y),
        grid.at(x, y) == Cell::Dead && grid.alive_neighbors(x, y) == 3 ==> grid.stepped().at(x, y)
            == Cell::Alive(birth_color()),
        grid.at(x, y) == Cell::Dead && grid.alive_neighbors(x, y) != 3 ==> grid.stepped().at(x, y)
            == Cell::Dead,
{
    grid.lemma_index_of_in_range(x, y);
    lemma_neighbors_wrap(grid, x, y);
}

/// Colours decide nothing: two grids with the same live cells, in whatever
/// colours, have the same live cells in the next generation.
pub proof fn lemma_colour_decides_nothing(first: GridView, second: GridView)
    requires
        first.wf(),
        second.wf(),
        first.size == second.size,
        forall|i: int|
            0 <= i < first.cells.len() ==> (first.cells[i] is Alive <==> second.cells[i] is Alive),
    ensures
        forall|i: int|
            0 <= i < first.cells.len() ==> (first.stepped().cells[i] is Alive
                <==> second.stepped().cells[i] is Alive),
{
    assert forall|i: int| 0 <= i < first.cells.len() implies (first.stepped().cells[i] is Alive
        <==> second.stepped().cells[i] is Alive) by {
        let x = column_of(first.size, i);
        let y = row_of(first.size, i);
        first.lemma_index_of_in_range(x - 1, y - 1);
        first.lemma_index_of_in_range(x, y - 1);
        first.lemma_index_of_in_range(x + 1, y - 1);
        first.lemma_index_of_in_range(x - 1, y);
        first.lemma_index_of_in_range(x + 1, y);
        first.lemma_index_of_in_range(x - 1, y + 1);
        first.lemma_index_of_in_range(x, y + 1);
        first.lemma_index_of_in_range(x + 1, y + 1);
        assert(first.alive_neighbors(x, y) == second.alive_neighbors(x, y));
    }
}

/// A grid without a live cell has no live neighbours anywhere, and its next
/// generation is the same grid.
pub proof fn lemma_dead_grid_stays_dead(grid: GridView)
    requires
        grid.wf(),
        forall|i: int| 0 <= i < grid.cells.len() ==> grid.cells[i] == Cell::Dead,
    ensures
        grid.stepped() == grid,
{
    assert forall|i: int| 0 <= i < grid.cells.len() implies grid.stepped().cells[i]
        == grid.cells[i] by {
        let x = column_of(grid.size, i);
        let y = row_of(grid.size, i);
        lemma_cell_of_index(grid.size, i);
        lemma_no_live_neighbors(grid, x, y);
    }
    assert(grid.stepped().cells =~= grid.cells);
}

proof fn lemma_no_live_neighbors(grid: GridView, x: int, y: int)
    requires
        grid.wf(),
        forall|i: int| 0 <= i < grid.cells.len() ==> grid.cells[i] == Cell::Dead,
    ensures
        grid.alive_neighbors(x, y) == 0,
{
    grid.lemma_index_of_in_range(x - 1, y - 1);
    grid.lemma_index_of_in_range(x, y - 1);
    grid.lemma_index_of_in_range(x + 1, y - 1);
    grid.lemma_index_of_in_range(x - 1, y);
    grid.lemma_index_of_in_range(x + 1, y);
    grid.lemma_index_of_in_range(x - 1, y + 1);
    grid.lemma_index_of_in_range(x, y + 1);
    grid.lemma_index_of_in_range(x + 1, y + 1);
}

/// The grid that `dead` makes has no live cell, so no generation changes
/// it.
pub proof fn lemma_all_dead_is_still(size: int)
    requires
        0 < size,
    ensures
        GridView::dead(size).wf(),
        GridView::dead(size).stepped() == GridView::dead(size),
{
    assert(size * size > 0) by (nonlinear_arith)
        requires
            0 < size,
    ;
    lemma_dead_grid_stays_dead(GridView::dead(size));
}

} // verus!
