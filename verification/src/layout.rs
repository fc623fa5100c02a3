//! Row-major addressing of a square grid: cell `(x, y)` of a grid of side
//! `size` lives at index `y * size + x`.

use vstd::arithmetic::div_mod::{
    lemma_add_mod_noop, lemma_div_pos_is_pos, lemma_fundamental_div_mod,
    lemma_fundamental_div_mod_converse, lemma_mod_bound, lemma_mod_multiples_vanish,
    lemma_mod_twice, lemma_multiply_divide_lt, lemma_small_mod,
};
use vstd::prelude::*;

verus! {

/// The index of cell `(x, y)`.
pub open spec fn cell_index(size: int, x: int, y: int) -> int {
    y * size + x
}

/// The column of the cell stored at index `i`.
pub open spec fn column_of(size: int, i: int) -> int {
    i % size
}

/// The row of the cell stored at index `i`.
pub open spec fn row_of(size: int, i: int) -> int {
    i / size
}

/// Whether `(x, y)` names a cell of a grid of side `size`.
pub open spec fn inside(size: int, x: int, y: int) -> bool {
    0 <= x < size && 0 <= y < size
}

/// Whether a walk over the grid, column by column and each column from row
/// 0 up, has passed cell `(cx, cy)` when it stands at `(x, y)`.
pub open spec fn passed(x: int, y: int, cx: int, cy: int) -> bool {
    cx < x || (cx == x && cy < y)
}

/// A cell inside the grid has an index below `size * size`, and the first
/// index of its row is not negative.
pub proof fn lemma_index_in_range(size: int, x: int, y: int)
    requires
        inside(size, x, y),
    ensures
        0 <= y * size,
        0 <= cell_index(size, x, y) < size * size,
{
    assert(0 <= y * size && (y + 1) * size <= size * size) by (nonlinear_arith)
        requires
            0 <= y < size,
    ;
    assert((y + 1) * size == y * size + size) by (nonlinear_arith);
}

/// Column and row read back from the index of a cell are the cell's own.
pub proof fn lemma_coordinates_of_cell(size: int, x: int, y: int)
    requires
        inside(size, x, y),
    ensures
        column_of(size, cell_index(size, x, y)) == x,
        row_of(size, cell_index(size, x, y)) == y,
{
    lemma_fundamental_div_mod_converse(cell_index(size, x, y), size, y, x);
}

/// Every index below `size * size` is the index of the cell at its column
/// and row, and that cell is inside the grid.
pub proof fn lemma_cell_of_index(size: int, i: int)
    requires
        0 <= size,
        0 <= i < size * size,
    ensures
        inside(size, column_of(size, i), row_of(size, i)),
        cell_index(size, column_of(size, i), row_of(size, i)) == i,
{
    assert(size != 0) by (nonlinear_arith)
        requires
            0 < size * size,
    ;
    lemma_mod_bound(i, size);
    lemma_div_pos_is_pos(i, size);
    lemma_multiply_divide_lt(i, size, size);
    lemma_fundamental_div_mod(i, size);
    assert(size * (i / size) == (i / size) * size) by (nonlinear_arith);
}

/// Reducing a coordinate modulo the side puts it inside the grid and
/// leaves a coordinate that is inside unchanged.
pub proof fn lemma_wrap_range(size: int, v: int)
    requires
        0 < size,
    ensures
        0 <= v % size < size,
        0 <= v < size ==> v % size == v,
{
    lemma_mod_bound(v, size);
    if 0 <= v < size {
        lemma_small_mod(v as nat, size as nat);
    }
}

/// A step from a coordinate and from its reduction modulo the side end in
/// the same place on the torus.
pub proof fn lemma_wrap_shift(size: int, v: int, d: int)
    requires
        0 < size,
    ensures
        (v % size + d) % size == (v + d) % size,
{
    lemma_add_mod_noop(v, d, size);
    lemma_add_mod_noop(v % size, d, size);
    lemma_mod_twice(v, size);
}

/// Going round the torus any number of times, in either direction, ends in
/// the same place.
pub proof fn lemma_wrap_turns(size: int, v: int, turns: int)
    requires
        0 < size,
    ensures
        (v + turns * size) % size == v % size,
{
    lemma_mod_multiples_vanish(turns, v, size);
    assert(size * turns + v == v + turns * size) by (nonlinear_arith);
}

} // verus!
