//! The Game of Life on a torus.
//!
//! Every coordinate is reduced modulo the side of the grid, so each cell has
//! eight neighbours and no coordinate is ever out of range.

use crate::layout::{
    cell_index, column_of, inside, lemma_cell_of_index, lemma_coordinates_of_cell,
    lemma_index_in_range, lemma_wrap_range, lemma_wrap_shift, passed, row_of,
};
use vstd::prelude::*;

verus! {

/// A colour as four bytes: red, green, blue and opacity.
#[derive(Clone, Copy, PartialEq, Eq, Debug, Structural)]
pub struct Color {
    pub r: u8,
    pub g: u8,
    pub b: u8,
    pub a: u8,
}

/// What a cell holds. The colour of a live cell is carried for drawing and
/// decides nothing.
#[derive(Clone, Copy, PartialEq, Eq, Debug, Structural)]
pub enum Cell {
    Dead,
    Alive(Color),
}

/// The colour of every cell that a step brings to life.
pub open spec fn spec_birth_color() -> Color {
    Color { r: 255, g: 255, b: 255, a: 255 }
}

/// The colour of every cell that a step brings to life.
#[verifier::when_used_as_spec(spec_birth_color)]
pub fn birth_color() -> (color: Color)
    ensures
        color == spec_birth_color(),
{
    Color { r: 255, g: 255, b: 255, a: 255 }
}

/// The mathematical content of a [`Grid`]: its side and its cells, row by
/// row.
pub struct GridView {
    pub size: int,
    pub cells: Seq<Cell>,
}

impl GridView {
    /// A grid has at least one cell, and exactly `size * size` of them.
    pub open spec fn wf(self) -> bool {
        0 < self.size && self.cells.len() == self.size * self.size
    }

    /// The grid of the given side in which every cell is dead.
    pub open spec fn dead(size: int) -> GridView {
        GridView { size, cells: Seq::new((size * size) as nat, |i: int| Cell::Dead) }
    }

    /// Where cell `(x, y)` is stored: both coordinates are taken modulo the
    /// side.
    pub open spec fn index_of(self, x: int, y: int) -> int {
        cell_index(self.size, x % self.size, y % self.size)
    }

    /// The cell at `(x, y)`.
    pub open spec fn at(self, x: int, y: int) -> Cell {
        self.cells[self.index_of(x, y)]
    }

    /// The grid with `value` written at `(x, y)`.
    pub open spec fn with_cell(self, x: int, y: int, value: Cell) -> GridView {
        GridView { size: self.size, cells: self.cells.update(self.index_of(x, y), value) }
    }

    /// 1 where the cell at `(x, y)` is alive, else 0.
    pub open spec fn alive(self, x: int, y: int) -> int {
        if self.at(x, y) is Alive {
            1
        } else {
            0
        }
    }

    /// How many of the eight cells around `(x, y)` are alive. On a grid of
    /// side 1 or 2 a cell is counted once for each direction in which it
    /// is reached.
    pub open spec fn alive_neighbors(self, x: int, y: int) -> int {
        self.alive(x - 1, y - 1) + self.alive(x, y - 1) + self.alive(x + 1, y - 1) + self.alive(
            x - 1,
            y,
        ) + self.alive(x + 1, y) + self.alive(x - 1, y + 1) + self.alive(x, y + 1) + self.alive(
            x + 1,
            y + 1,
        )
    }

    /// What becomes of a cell with the given number of live neighbours: a
    /// live cell with two or three of them lives on as it is, a dead cell
    /// with exactly three comes to life, and every other cell is dead.
    pub open spec fn fate(cell: Cell, neighbors: int) -> Cell {
        match cell {
            Cell::Alive(_) => if neighbors == 2 || neighbors == 3 {
                cell
            } else {
                Cell::Dead
            },
            Cell::Dead => if neighbors == 3 {
                Cell::Alive(birth_color())
            } else {
                Cell::Dead
            },
        }
    }

    /// The grid after one step.
    pub open spec fn stepped(self) -> GridView {
        GridView {
            size: self.size,
            cells: Seq::new(
                self.cells.len(),
                |i: int|
                    Self::fate(
                        self.cells[i],
                        self.alive_neighbors(column_of(self.size, i), row_of(self.size, i)),
                    ),
            ),
        }
    }

    /// The grid with a glider of the given colour written into the three by
    /// three block whose corner is `(x, y)`.
    pub open spec fn with_glider(self, x: int, y: int, color: Color) -> GridView {
        self.with_cell(x + 1, y, Cell::Alive(color)).with_cell(
            x + 2,
            y + 1,
            Cell::Alive(color),
        ).with_cell(x, y + 2, Cell::Alive(color)).with_cell(
            x + 1,
            y + 2,
            Cell::Alive(color),
        ).with_cell(x + 2, y + 2, Cell::Alive(color))
    }

    /// The grid with a glider at each of the first `count` anchors.
    pub open spec fn with_gliders(
        self,
        anchors: Seq<(i32, i32)>,
        count: int,
        color: Color,
    ) -> GridView
        decreases count,
    {
        if count <= 0 {
            self
        } else {
            self.with_gliders(anchors, count - 1, color).with_glider(
                anchors[count - 1].0 as int,
                anchors[count - 1].1 as int,
                color,
            )
        }
    }

    /// The live cells among the first `end` cells, each with its position
    /// and colour, in the order in which the cells are stored.
    pub open spec fn living_before(self, end: int) -> Seq<(int, int, Color)>
        decreases end,
    {
        if end <= 0 {
            Seq::empty()
        } else {
            match self.cells[end - 1] {
                Cell::Alive(color) => self.living_before(end - 1).push(
                    (column_of(self.size, end - 1), row_of(self.size, end - 1), color),
                ),
                Cell::Dead => self.living_before(end - 1),
            }
        }
    }

    /// All live cells, row by row.
    pub open spec fn living(self) -> Seq<(int, int, Color)> {
        self.living_before(self.cells.len() as int)
    }

    /// Every index that `index_of` gives is the index of a cell.
    pub proof fn lemma_index_of_in_range(self, x: int, y: int)
        requires
            self.wf(),
        ensures
            0 <= self.index_of(x, y) < self.cells.len(),
            column_of(self.size, self.index_of(x, y)) == x % self.size,
            row_of(self.size, self.index_of(x, y)) == y % self.size,
    {
        lemma_wrap_range(self.size, x);
        lemma_wrap_range(self.size, y);
        lemma_index_in_range(self.size, x % self.size, y % self.size);
        lemma_coordinates_of_cell(self.size, x % self.size, y % self.size);
    }
}

/// A square grid of cells whose edges are joined to the opposite edges.
pub struct Grid {
    cells: Vec<Cell>,
    size: i32,
}

impl View for Grid {
    type V = GridView;

    closed spec fn view(&self) -> GridView {
        GridView { size: self.size as int, cells: self.cells@ }
    }
}

impl Clone for Grid {
    fn clone(&self) -> (copy: Grid)
        ensures
            copy@ == self@,
    {
        proof {
            use_type_invariant(self);
        }
        let cells = self.cells.clone();
        assert(cells@ =~= self.cells@);
        Grid { cells, size: self.size }
    }
}

impl Grid {
    #[verifier::type_invariant]
    spec fn inv(self) -> bool {
        &&& 0 < self.size
        &&& self.cells@.len() == self.size * self.size
        &&& self.size * self.size <= i32::MAX
    }

    /// A grid of the given side in which every cell is dead.
    pub fn new(size: i32) -> (grid: Grid)
        requires
            0 < size,
            size * size <= i32::MAX,
        ensures
            grid@ == GridView::dead(size as int),
            grid@.wf(),
            grid@.size == size,
    {
        assert(size * size >= 0) by (nonlinear_arith);
        let cells = vec![Cell::Dead; (size * size) as usize];
        assert(cells@ =~= GridView::dead(size as int).cells);
        Grid { cells, size }
    }

    /// The side of the grid.
    pub fn size(&self) -> (size: i32)
        ensures
            size == self@.size,
            self@.wf(),
    {
        proof {
            use_type_invariant(self);
        }
        self.size
    }
}

/// A coordinate reduced modulo the side: the remainder that is never
/// negative.
fn wrap(v: i32, size: i32) -> (wrapped: i32)
    requires
        0 < size,
    ensures
        wrapped == v % size,
        0 <= wrapped < size,
{
    proof {
        lemma_wrap_range(size as int, v as int);
    }
    v.checked_rem_euclid(size).unwrap()
}

/// Where cell `(x, y)` is stored. Every coordinate names a cell.
pub fn x_y_to_index(grid: &Grid, x: i32, y: i32) -> (index: usize)
    ensures
        index == grid@.index_of(x as int, y as int),
        index < grid@.cells.len(),
{
    proof {
        use_type_invariant(grid);
        grid@.lemma_index_of_in_range(x as int, y as int);
    }
    let wx: i32 = wrap(x, grid.size);
    let wy: i32 = wrap(y, grid.size);
    proof {
        lemma_index_in_range(grid.size as int, wx as int, wy as int);
    }
    (wy * grid.size + wx) as usize
}

/// The cell at `(x, y)`. There always is one.
pub fn get(grid: &Grid, x: i32, y: i32) -> (cell: Option<&Cell>)
    ensures
        cell matches Some(c) && *c == grid@.at(x as int, y as int),
{
    let index: usize = x_y_to_index(grid, x, y);
    Some(&grid.cells[index])
}

/// Writes `value` at `(x, y)`.
pub fn set(grid: &mut Grid, x: i32, y: i32, value: Cell)
    ensures
        final(grid)@ == old(grid)@.with_cell(x as int, y as int, value),
        final(grid)@.wf(),
        final(grid)@.size == old(grid)@.size,
{
    proof {
        use_type_invariant(&*grid);
    }
    let index: usize = x_y_to_index(grid, x, y);
    grid.cells[index] = value;
}

/// 1 where the cell at `(x, y)` is alive, else 0.
fn alive_at(grid: &Grid, x: i32, y: i32) -> (count: u8)
    ensures
        count == grid@.alive(x as int, y as int),
{
    match get(grid, x, y).unwrap() {
        Cell::Alive(_) => 1,
        Cell::Dead => 0,
    }
}

/// How many of the eight cells around `(x, y)` are alive.
pub fn alive_neighbors(grid: &Grid, x: i32, y: i32) -> (count: u8)
    ensures
        count == grid@.alive_neighbors(x as int, y as int),
        count <= 8,
{
    proof {
        use_type_invariant(grid);
    }
    let wx: i32 = wrap(x, grid.size);
    let wy: i32 = wrap(y, grid.size);
    proof {
        let size = grid.size as int;
        lemma_wrap_shift(size, x as int, -1);
        lemma_wrap_shift(size, x as int, 0);
        lemma_wrap_shift(size, x as int, 1);
        lemma_wrap_shift(size, y as int, -1);
        lemma_wrap_shift(size, y as int, 0);
        lemma_wrap_shift(size, y as int, 1);
    }
    let below: u8 = alive_at(grid, wx - 1, wy - 1) + alive_at(grid, wx, wy - 1) + alive_at(
        grid,
        wx + 1,
        wy - 1,
    );
    let beside: u8 = alive_at(grid, wx - 1, wy) + alive_at(grid, wx + 1, wy);
    let above: u8 = alive_at(grid, wx - 1, wy + 1) + alive_at(grid, wx, wy + 1) + alive_at(
        grid,
        wx + 1,
        wy + 1,
    );
    below + beside + above
}

impl GridView {
    /// The next grid as far as the walk has built it at `(x, y)`: the cells
    /// that it has passed have met their fate, the others are as they were.
    spec fn stepped_so_far(self, x: int, y: int) -> GridView {
        GridView {
            size: self.size,
            cells: Seq::new(
                self.cells.len(),
                |i: int|
                    if passed(x, y, column_of(self.size, i), row_of(self.size, i)) {
                        Self::fate(
                            self.cells[i],
                            self.alive_neighbors(column_of(self.size, i), row_of(self.size, i)),
                        )
                    } else {
                        self.cells[i]
                    },
            ),
        }
    }

    /// Writing the fate of cell `(x, y)` takes the next grid from the walk's
    /// state at `(x, y)` to its state at `(x, y + 1)`; where the cell stays
    /// as it is, nothing needs to be written.
    proof fn lemma_decide(self, x: int, y: int)
        requires
            self.wf(),
            0 <= x < self.size,
            0 <= y < self.size,
        ensures
            self.stepped_so_far(x, y + 1) == self.stepped_so_far(x, y).with_cell(
                x,
                y,
                Self::fate(self.at(x, y), self.alive_neighbors(x, y)),
            ),
            Self::fate(self.at(x, y), self.alive_neighbors(x, y)) == self.at(x, y)
                ==> self.stepped_so_far(x, y + 1) == self.stepped_so_far(x, y),
    {
        let size = self.size;
        self.lemma_index_of_in_range(x, y);
        lemma_wrap_range(size, x);
        lemma_wrap_range(size, y);
        assert forall|i: int| 0 <= i < self.cells.len() implies cell_index(
            size,
            column_of(size, i),
            row_of(size, i),
        ) == i by {
            lemma_cell_of_index(size, i);
        }
        assert(self.stepped_so_far(x, y + 1).cells =~= self.stepped_so_far(x, y).with_cell(
            x,
            y,
            Self::fate(self.at(x, y), self.alive_neighbors(x, y)),
        ).cells);
        if Self::fate(self.at(x, y), self.alive_neighbors(x, y)) == self.at(x, y) {
            assert(self.stepped_so_far(x, y + 1).cells =~= self.stepped_so_far(x, y).cells);
        }
    }

    /// Before the walk starts the next grid is the old one, a finished
    /// column hands over to the next, and after the last column the next
    /// grid is complete.
    proof fn lemma_walk(self, x: int)
        requires
            self.wf(),
        ensures
            self.stepped_so_far(0, 0) == self,
            self.stepped_so_far(x, self.size) == self.stepped_so_far(x + 1, 0),
            self.stepped_so_far(self.size, 0) == self.stepped(),
    {
        let size = self.size;
        assert forall|i: int| 0 <= i < self.cells.len() implies inside(
            size,
            column_of(size, i),
            row_of(size, i),
        ) by {
            lemma_cell_of_index(size, i);
        }
        assert(self.stepped_so_far(0, 0).cells =~= self.cells);
        assert(self.stepped_so_far(x, size).cells =~= self.stepped_so_far(x + 1, 0).cells);
        assert(self.stepped_so_far(size, 0).cells =~= self.stepped().cells);
    }
}

/// One generation: the grid that follows `grid`.
pub fn step(grid: &Grid) -> (next: Grid)
    ensures
        next@ == grid@.stepped(),
        next@.wf(),
        next@.size == grid@.size,
{
    proof {
        use_type_invariant(grid);
        grid@.lemma_walk(0);
    }
    let mut new_grid = grid.clone();
    let mut x: i32 = 0;
    while x < grid.size
        invariant
            grid@.wf(),
            0 <= x <= grid.size,
            new_grid@ == grid@.stepped_so_far(x as int, 0),
        decreases grid.size - x,
    {
        let mut y: i32 = 0;
        while y < grid.size
            invariant
                grid@.wf(),
                0 <= x < grid.size,
                0 <= y <= grid.size,
                new_grid@ == grid@.stepped_so_far(x as int, y as int),
            decreases grid.size - y,
        {
            proof {
                grid@.lemma_decide(x as int, y as int);
            }
            let neighbors: u8 = alive_neighbors(grid, x, y);
            let cell = get(grid, x, y).unwrap();
            match cell {
                Cell::Alive(_) => {
                    if neighbors < 2 || neighbors > 3 {
                        set(&mut new_grid, x, y, Cell::Dead);
                    }
                },
                Cell::Dead => {
                    if neighbors == 3 {
                        set(&mut new_grid, x, y, Cell::Alive(birth_color()));
                    }
                },
            }
            y = y + 1;
        }
        proof {
            grid@.lemma_walk(x as int);
        }
        x = x + 1;
    }
    proof {
        grid@.lemma_walk(x as int);
    }
    new_grid
}

/// Writes a glider of the given colour into the three by three block whose
/// corner is `(x, y)`: five live cells that travel across the grid as the
/// generations pass. The other four cells of the block are left as they are.
pub fn stamp_glider(grid: &mut Grid, x: i32, y: i32, color: Color)
    ensures
        final(grid)@ == old(grid)@.with_glider(x as int, y as int, color),
        final(grid)@.wf(),
        final(grid)@.size == old(grid)@.size,
{
    proof {
        use_type_invariant(&*grid);
    }
    let wx: i32 = wrap(x, grid.size);
    let wy: i32 = wrap(y, grid.size);
    proof {
        let size = grid.size as int;
        lemma_wrap_shift(size, x as int, 0);
        lemma_wrap_shift(size, x as int, 1);
        lemma_wrap_shift(size, x as int, 2);
        lemma_wrap_shift(size, y as int, 0);
        lemma_wrap_shift(size, y as int, 1);
        lemma_wrap_shift(size, y as int, 2);
        assert(size < 0x10000) by (nonlinear_arith)
            requires
                0 < size,
                size * size <= i32::MAX,
        ;
    }
    set(grid, wx + 1, wy, Cell::Alive(color));
    set(grid, wx + 2, wy + 1, Cell::Alive(color));
    set(grid, wx, wy + 2, Cell::Alive(color));
    set(grid, wx + 1, wy + 2, Cell::Alive(color));
    set(grid, wx + 2, wy + 2, Cell::Alive(color));
}

/// A grid of the given side in which every cell is dead but for one glider
/// at each anchor, written in the order of the anchors.
pub fn seeded(size: i32, anchors: &[(i32, i32)], color: Color) -> (grid: Grid)
    requires
        0 < size,
        size * size <= i32::MAX,
    ensures
        grid@ == GridView::dead(size as int).with_gliders(
            anchors@,
            anchors@.len() as int,
            color,
        ),
        grid@.wf(),
        grid@.size == size,
{
    let mut grid = Grid::new(size);
    let mut done: usize = 0;
    while done < anchors.len()
        invariant
            done <= anchors@.len(),
            grid@ == GridView::dead(size as int).with_gliders(anchors@, done as int, color),
            grid@.wf(),
            grid@.size == size,
        decreases anchors@.len() - done,
    {
        let anchor = anchors[done];
        stamp_glider(&mut grid, anchor.0, anchor.1, color);
        done = done + 1;
    }
    grid
}

/// The position and colour that a list of squares names.
pub open spec fn squares(cells: Seq<(i32, i32, Color)>) -> Seq<(int, int, Color)> {
    cells.map_values(|cell: (i32, i32, Color)| (cell.0 as int, cell.1 as int, cell.2))
}

/// The live cells, as `(x, y, colour)`, row by row: cell `index` lies in
/// column `index % size` of row `index / size`. These are the squares to
/// draw for the grid.
pub fn alive_cells(grid: &Grid) -> (found: Vec<(i32, i32, Color)>)
    ensures
        squares(found@) == grid@.living(),
{
    proof {
        use_type_invariant(grid);
    }
    let side: usize = grid.size as usize;
    let mut found: Vec<(i32, i32, Color)> = Vec::new();
    let mut index: usize = 0;
    while index < grid.cells.len()
        invariant
            grid@.wf(),
            side == grid@.size,
            grid@.cells.len() <= i32::MAX,
            index <= grid@.cells.len(),
            squares(found@) == grid@.living_before(index as int),
        decreases grid@.cells.len() - index,
    {
        proof {
            lemma_cell_of_index(grid@.size, index as int);
        }
        match grid.cells[index] {
            Cell::Alive(color) => {
                let x: i32 = (index % side) as i32;
                let y: i32 = (index / side) as i32;
                proof {
                    assert(squares(found@.push((x, y, color))) =~= squares(found@).push(
                        (x as int, y as int, color),
                    ));
                }
                found.push((x, y, color));
            },
            Cell::Dead => {},
        }
        index = index + 1;
    }
    found
}

} // verus!
