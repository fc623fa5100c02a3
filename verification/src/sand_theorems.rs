//! What holds of every sand grid: reads and writes agree, the side never
//! changes, a lone grain falls to the floor, and no step makes or loses a
//! grain.

use crate::layout::{
    cell_index, column_of, inside, lemma_cell_of_index, lemma_coordinates_of_cell,
    lemma_index_in_range, row_of,
};
use crate::sand::{Cell, GridView};
use vstd::prelude::*;

verus! {

/// A cell that has just been written reads back as the value written, and
/// every other cell reads as before.
pub proof fn lemma_get_after_set(grid: GridView, x: int, y: int, value: Cell, ox: int, oy: int)
    requires
        grid.wf(),
        grid.in_bounds(x, y),
    ensures
        grid.with_cell(x, y, value).at(x, y) == Some(value),
        (ox, oy) != (x, y) ==> grid.with_cell(x, y, value).at(ox, oy) == grid.at(ox, oy),
{
    lemma_index_in_range(grid.size, x, y);
    lemma_coordinates_of_cell(grid.size, x, y);
    if grid.in_bounds(ox, oy) {
        lemma_index_in_range(grid.size, ox, oy);
        lemma_coordinates_of_cell(grid.size, ox, oy);
    }
}

/// Outside the grid there is no cell to read, and a write there changes
/// nothing.
pub proof fn lemma_outside_the_grid(grid: GridView, x: int, y: int, value: Cell)
    requires
        x < 0 || x >= grid.size || y < 0 || y >= grid.size,
    ensures
        grid.at(x, y) is None,
        grid.with_cell(x, y, value) == grid,
{
}

/// A write keeps the side of the grid and leaves it with exactly
/// `size * size` cells.
pub proof fn lemma_set_keeps_size(grid: GridView, x: int, y: int, value: Cell)
    requires
        grid.wf(),
    ensures
        grid.with_cell(x, y, value).wf(),
        grid.with_cell(x, y, value).size == grid.size,
{
    if grid.in_bounds(x, y) {
        lemma_index_in_range(grid.size, x, y);
    }
}

/// The brush keeps the side of the grid and leaves it with exactly
/// `size * size` cells.
pub proof fn lemma_paint_keeps_size(grid: GridView, x: int, y: int, radius: int)
    requires
        grid.wf(),
    ensures
        grid.painted(x, y, radius).wf(),
        grid.painted(x, y, radius).size == grid.size,
{
}

/// Before and after every step the grid has the same side and exactly
/// `size * size` cells.
pub proof fn lemma_step_keeps_size(grid: GridView, steps: nat)
    requires
        grid.wf(),
    ensures
        grid.stepped().wf(),
        grid.stepped().size == grid.size,
        grid.after(steps).wf(),
        grid.after(steps).size == grid.size,
    decreases steps,
{
    if steps > 0 {
        lemma_step_keeps_size(grid.stepped(), (steps - 1) as nat);
    }
}

/// Each cell of the next grid is what the rule makes of the grid before the
/// step. So a grain on the floor stays, a grain above an empty cell moves
/// into that cell, and a grain above another grain stays where it is,
/// whether or not the grain below it moves.
pub proof fn lemma_rule(grid: GridView, x: int, y: int)
    requires
        grid.wf(),
        grid.in_bounds(x, y),
    ensures
        grid.stepped().at(x, y) == Some(grid.settled(x, y)),
        y == 0 && grid.at(x, y) == Some(Cell::Sand) ==> grid.stepped().at(x, y) == Some(
            Cell::Sand,
        ),
        y > 0 && grid.at(x, y) == Some(Cell::Sand) && grid.at(x, y - 1) == Some(Cell::Air)
            ==> grid.stepped().at(x, y - 1) == Some(Cell::Sand),
        y > 0 && grid.at(x, y) == Some(Cell::Sand) && grid.at(x, y - 1) == Some(Cell::Sand)
            ==> grid.stepped().at(x, y) == Some(Cell::Sand),
{
    lemma_index_in_range(grid.size, x, y);
    lemma_coordinates_of_cell(grid.size, x, y);
    if y > 0 {
        lemma_index_in_range(grid.size, x, y - 1);
        lemma_coordinates_of_cell(grid.size, x, y - 1);
    }
}

/// A grain on the floor is still there after any number of steps, whatever
/// else the grid holds.
pub proof fn lemma_floor_grain_stays(grid: GridView, x: int, steps: nat)
    requires
        grid.wf(),
        grid.at(x, 0) == Some(Cell::Sand),
    ensures
        grid.after(steps).at(x, 0) == Some(Cell::Sand),
    decreases steps,
{
    if steps > 0 {
        lemma_rule(grid, x, 0);
        lemma_step_keeps_size(grid, 0);
        lemma_floor_grain_stays(grid.stepped(), x, (steps - 1) as nat);
    }
}

/// A grain with nothing but air between it and the floor is one row lower
/// after each step until it reaches the floor, where it stays, whatever the
/// other columns hold and whatever lies above it. The cells below it stay
/// empty until it passes.
pub proof fn lemma_grain_falls_through_air(grid: GridView, x: int, y: int, steps: nat)
    requires
        grid.wf(),
        grid.in_bounds(x, y),
        grid.at(x, y) == Some(Cell::Sand),
        forall|j: int| 0 <= j < y ==> grid.at(x, j) == Some(Cell::Air),
    ensures
        steps <= y ==> grid.after(steps).at(x, y - steps) == Some(Cell::Sand),
        steps >= y ==> grid.after(steps).at(x, 0) == Some(Cell::Sand),
        forall|j: int| 0 <= j < y - steps ==> grid.after(steps).at(x, j) == Some(Cell::Air),
    decreases steps,
{
    if steps > 0 {
        let next = grid.stepped();
        lemma_step_keeps_size(grid, 0);
        if y == 0 {
            lemma_floor_grain_stays(grid, x, steps);
        } else {
            lemma_rule(grid, x, y);
            assert forall|j: int| 0 <= j < y - 1 implies next.at(x, j) == Some(Cell::Air) by {
                lemma_rule(grid, x, j);
                assert(grid.at(x, j + 1) == Some(Cell::Air));
            }
            lemma_grain_falls_through_air(next, x, y - 1, (steps - 1) as nat);
        }
    }
}

/// The grid of the given side whose only grain lies at `(x, y)`.
pub open spec fn lone_grain(size: int, x: int, y: int) -> GridView {
    GridView::empty(size).with_cell(x, y, Cell::Sand)
}

/// What the cell at `(cx, cy)` of a grid with a lone grain holds.
proof fn lemma_lone_grain_cell(size: int, x: int, y: int, cx: int, cy: int)
    requires
        0 <= size,
        inside(size, x, y),
    ensures
        lone_grain(size, x, y).wf(),
        lone_grain(size, x, y).size == size,
        lone_grain(size, x, y).at(cx, cy) == if !inside(size, cx, cy) {
            None
        } else if (cx, cy) == (x, y) {
            Some(Cell::Sand)
        } else {
            Some(Cell::Air)
        },
{
    let empty = GridView::empty(size);
    assert(size * size >= 0) by (nonlinear_arith);
    lemma_get_after_set(empty, x, y, Cell::Sand, cx, cy);
    lemma_index_in_range(size, x, y);
    if empty.in_bounds(cx, cy) {
        lemma_index_in_range(size, cx, cy);
    }
}

/// A lone grain on the floor stays where it is. A lone grain above the
/// floor is one row lower after each step until it reaches the floor, and
/// stays there.
pub proof fn lemma_lone_grain_falls(size: int, x: int, y: int, steps: nat)
    requires
        0 <= x < size,
        0 <= y < size,
    ensures
        lone_grain(size, x, 0).stepped() == lone_grain(size, x, 0),
        y > 0 ==> lone_grain(size, x, y).stepped() == lone_grain(size, x, y - 1),
        lone_grain(size, x, y).after(steps) == lone_grain(
            size,
            x,
            if y >= steps {
                y - steps
            } else {
                0
            },
        ),
    decreases steps,
{
    lemma_lone_grain_step(size, x, 0);
    lemma_lone_grain_step(size, x, y);
    if steps > 0 {
        let lower = if y > 0 {
            y - 1
        } else {
            0
        };
        lemma_lone_grain_falls(size, x, lower, (steps - 1) as nat);
    }
}

proof fn lemma_lone_grain_step(size: int, x: int, y: int)
    requires
        0 <= x < size,
        0 <= y < size,
    ensures
        lone_grain(size, x, y).stepped() == lone_grain(
            size,
            x,
            if y > 0 {
                y - 1
            } else {
                0
            },
        ),
{
    let lower = if y > 0 {
        y - 1
    } else {
        0
    };
    let before = lone_grain(size, x, y);
    let target = lone_grain(size, x, lower);
    lemma_lone_grain_cell(size, x, y, x, y);
    lemma_lone_grain_cell(size, x, lower, x, lower);
    assert forall|i: int| 0 <= i < before.cells.len() implies before.stepped().cells[i]
        == target.cells[i] by {
        let cx = column_of(size, i);
        let cy = row_of(size, i);
        lemma_cell_of_index(size, i);
        lemma_lone_grain_cell(size, x, y, cx, cy);
        lemma_lone_grain_cell(size, x, y, cx, cy - 1);
        lemma_lone_grain_cell(size, x, y, cx, cy + 1);
        lemma_lone_grain_cell(size, x, lower, cx, cy);
        assert(target.at(cx, cy) == Some(target.cells[i]));
    }
    assert(before.stepped().cells =~= target.cells);
}

/// 1 where the cell stored at index `i` holds a grain, else 0.
spec fn grain(grid: GridView, i: int) -> int {
    if grid.cells[i] == Cell::Sand {
        1
    } else {
        0
    }
}

/// 1 where the cell stored at index `i` holds a grain that moves down in the
/// next step, else 0.
spec fn falls(grid: GridView, i: int) -> int {
    if grid.size <= i < grid.cells.len() && grid.cells[i] == Cell::Sand && grid.cells[i
        - grid.size] == Cell::Air {
        1
    } else {
        0
    }
}

/// How many of the grains stored below index `end` move down in the next
/// step.
spec fn falling_before(grid: GridView, end: int) -> int
    decreases end,
{
    if end <= 0 {
        0
    } else {
        falling_before(grid, end - 1) + falls(grid, end - 1)
    }
}

/// A cell holds a grain after the step where it held one that did not move,
/// or where the grain one row up, `size` cells further on, moved into it.
proof fn lemma_cell_after_step(grid: GridView, i: int)
    requires
        grid.wf(),
        0 <= i < grid.cells.len(),
    ensures
        grain(grid.stepped(), i) == grain(grid, i) - falls(grid, i) + falls(grid, i + grid.size),
{
    let size = grid.size;
    let x = column_of(size, i);
    let y = row_of(size, i);
    lemma_cell_of_index(size, i);
    assert(grid.at(x, y) == Some(grid.cells[i]));
    assert(cell_index(size, x, y - 1) == i - size && cell_index(size, x, y + 1) == i + size)
        by (nonlinear_arith)
        requires
            cell_index(size, x, y) == i,
    ;
    if y > 0 {
        lemma_index_in_range(size, x, y - 1);
        assert(grid.at(x, y - 1) == Some(grid.cells[i - size]));
    } else {
        assert(i < size) by (nonlinear_arith)
            requires
                y == 0,
                cell_index(size, x, y) == i,
                x < size,
        ;
    }
    if y + 1 < size {
        lemma_index_in_range(size, x, y + 1);
        assert(grid.at(x, y + 1) == Some(grid.cells[i + size]));
    } else {
        assert(i + size >= size * size) by (nonlinear_arith)
            requires
                y + 1 == size,
                cell_index(size, x, y) == i,
                0 <= x,
        ;
    }
}

proof fn lemma_grains_before_step(grid: GridView, end: int)
    requires
        grid.wf(),
        0 <= end <= grid.cells.len(),
    ensures
        grid.stepped().grains_before(end).len() == grid.grains_before(end).len()
            - falling_before(grid, end) + falling_before(grid, end + grid.size) - falling_before(
            grid,
            grid.size,
        ),
    decreases end,
{
    if end > 0 {
        lemma_grains_before_step(grid, end - 1);
        lemma_cell_after_step(grid, end - 1);
    }
}

/// No grain in the bottom row moves down, and there is no grain beyond the
/// last cell.
proof fn lemma_falling_at_the_edges(grid: GridView, end: int)
    requires
        grid.wf(),
    ensures
        end <= grid.size ==> falling_before(grid, end) == 0,
        end >= grid.cells.len() ==> falling_before(grid, end) == falling_before(
            grid,
            grid.cells.len() as int,
        ),
    decreases end,
{
    if end > 0 {
        lemma_falling_at_the_edges(grid, end - 1);
    }
    assert(grid.size <= grid.size * grid.size) by (nonlinear_arith)
        requires
            0 <= grid.size,
    ;
}

/// A step neither makes nor loses a grain: after any number of steps the
/// grid holds as many grains as before.
pub proof fn lemma_population_is_conserved(grid: GridView, steps: nat)
    requires
        grid.wf(),
    ensures
        grid.stepped().population() == grid.population(),
        grid.after(steps).population() == grid.population(),
    decreases steps,
{
    let count = grid.cells.len() as int;
    lemma_grains_before_step(grid, count);
    lemma_falling_at_the_edges(grid, grid.size);
    lemma_falling_at_the_edges(grid, count);
    lemma_falling_at_the_edges(grid, count + grid.size);
    if steps > 0 {
        lemma_step_keeps_size(grid, 0);
        lemma_population_is_conserved(grid.stepped(), (steps - 1) as nat);
    }
}

} // verus!
