//! Falling sand on a bounded square grid.
//!
//! Row 0 is the floor. In one step every grain whose cell below was empty
//! before the step moves down by one row; every other grain stays. All
//! decisions are taken on the grid as it was before the step.

use crate::layout::{
    cell_index, column_of, inside, lemma_cell_of_index, lemma_coordinates_of_cell,
    lemma_index_in_range, passed, row_of,
};
use crate::random::pick;
use rand::thread_rng;
use vstd::prelude::*;

verus! {

/// Side of the grid that a new game starts with.
pub const GRID_SIZE: i32 = 256;

/// Half the side, less the centre, of the square that the pointer paints.
pub const BRUSH_RADIUS: i32 = 4;

/// What a cell holds.
#[derive(Clone, Copy, PartialEq, Eq, Debug, Structural)]
pub enum Cell {
    Air,
    Sand,
}

/// The mathematical content of a [`Grid`]: its side and its cells, row by
/// row from the floor up.
pub struct GridView {
    pub size: int,
    pub cells: Seq<Cell>,
}

impl GridView {
    /// A grid has exactly `size * size` cells.
    pub open spec fn wf(self) -> bool {
        0 <= self.size && self.cells.len() == self.size * self.size
    }

    /// The grid of the given side without any sand.
    pub open spec fn empty(size: int) -> GridView {
        GridView { size, cells: Seq::new((size * size) as nat, |i: int| Cell::Air) }
    }

    pub open spec fn in_bounds(self, x: int, y: int) -> bool {
        inside(self.size, x, y)
    }

    /// Where cell `(x, y)` is stored; nowhere when it is outside the grid.
    pub open spec fn index_of(self, x: int, y: int) -> Option<int> {
        if self.in_bounds(x, y) {
            Some(cell_index(self.size, x, y))
        } else {
            None
        }
    }

    /// The cell at `(x, y)`; none outside the grid.
    pub open spec fn at(self, x: int, y: int) -> Option<Cell> {
        if self.in_bounds(x, y) {
            Some(self.cells[cell_index(self.size, x, y)])
        } else {
            None
        }
    }

    /// The grid with `value` written at `(x, y)`; the same grid when
    /// `(x, y)` is outside.
    pub open spec fn with_cell(self, x: int, y: int, value: Cell) -> GridView {
        if self.in_bounds(x, y) {
            GridView {
                size: self.size,
                cells: self.cells.update(cell_index(self.size, x, y), value),
            }
        } else {
            self
        }
    }

    /// Whether the square of the given radius around `(x, y)` covers
    /// `(cx, cy)`.
    pub open spec fn brush_covers(x: int, y: int, radius: int, cx: int, cy: int) -> bool {
        x - radius <= cx <= x + radius && y - radius <= cy <= y + radius
    }

    /// The grid after sand has been painted over the square of the given
    /// radius around `(x, y)`, as far as the square lies inside the grid.
    pub open spec fn painted(self, x: int, y: int, radius: int) -> GridView {
        GridView {
            size: self.size,
            cells: Seq::new(
                self.cells.len(),
                |i: int|
                    if Self::brush_covers(
                        x,
                        y,
                        radius,
                        column_of(self.size, i),
                        row_of(self.size, i),
                    ) {
                        Cell::Sand
                    } else {
                        self.cells[i]
                    },
            ),
        }
    }

    /// A grain at `(x, y)` that does not move in the next step: it lies on
    /// the floor, or the cell below it is not empty.
    pub open spec fn rests(self, x: int, y: int) -> bool {
        self.at(x, y) == Some(Cell::Sand) && (y == 0 || self.at(x, y - 1) != Some(Cell::Air))
    }

    /// An empty cell `(x, y)` into which the grain above it falls in the
    /// next step.
    pub open spec fn receives(self, x: int, y: int) -> bool {
        self.at(x, y) == Some(Cell::Air) && self.at(x, y + 1) == Some(Cell::Sand)
    }

    /// What cell `(x, y)` holds after one step.
    pub open spec fn settled(self, x: int, y: int) -> Cell {
        if self.rests(x, y) || self.receives(x, y) {
            Cell::Sand
        } else {
            Cell::Air
        }
    }

    /// The grid after one step.
    pub open spec fn stepped(self) -> GridView {
        GridView {
            size: self.size,
            cells: Seq::new(
                self.cells.len(),
                |i: int| self.settled(column_of(self.size, i), row_of(self.size, i)),
            ),
        }
    }

    /// The positions `(x, y)` of the grains among the first `end` cells, in
    /// the order in which the cells are stored.
    pub open spec fn grains_before(self, end: int) -> Seq<(int, int)>
        decreases end,
    {
        if end <= 0 {
            Seq::empty()
        } else if self.cells[end - 1] == Cell::Sand {
            self.grains_before(end - 1).push(
                (column_of(self.size, end - 1), row_of(self.size, end - 1)),
            )
        } else {
            self.grains_before(end - 1)
        }
    }

    /// The positions of all grains, row by row from the floor up.
    pub open spec fn grains(self) -> Seq<(int, int)> {
        self.grains_before(self.cells.len() as int)
    }

    /// How many cells hold sand.
    pub open spec fn population(self) -> nat {
        self.grains().len()
    }

    /// The grid after the given number of steps.
    pub open spec fn after(self, steps: nat) -> GridView
        decreases steps,
    {
        if steps == 0 {
            self
        } else {
            self.stepped().after((steps - 1) as nat)
        }
    }
}

/// A square grid of cells.
pub struct Grid {
    cells: Vec<Cell>,
    size: i32,
}

impl View for Grid {
    type V = GridView;

    closed spec fn view(&self) -> GridView {
        GridView { size: self.size as int, cells: self.cells@ }
    }
}

impl Clone for Grid {
    fn clone(&self) -> (copy: Grid)
        ensures
            copy@ == self@,
    {
        proof {
            use_type_invariant(self);
        }
        let cells = self.cells.clone();
        assert(cells@ =~= self.cells@);
        Grid { cells, size: self.size }
    }
}

impl Grid {
    #[verifier::type_invariant]
    spec fn inv(self) -> bool {
        &&& 0 <= self.size
        &&& self.cells@.len() == self.size * self.size
        &&& self.size * self.size <= i32::MAX
    }

    /// An empty grid of the given side.
    pub fn new(size: i32) -> (grid: Grid)
        requires
            0 <= size,
            size * size <= i32::MAX,
        ensures
            grid@ == GridView::empty(size as int),
            grid@.wf(),
            grid@.size == size,
    {
        assert(size * size >= 0) by (nonlinear_arith);
        let cells = vec![Cell::Air; (size * size) as usize];
        assert(cells@ =~= GridView::empty(size as int).cells);
        Grid { cells, size }
    }

    /// The side of the grid.
    pub fn size(&self) -> (size: i32)
        ensures
            size == self@.size,
            self@.wf(),
    {
        proof {
            use_type_invariant(self);
        }
        self.size
    }
}

/// Where cell `(x, y)` is stored, or `None` when it is outside the grid.
pub fn x_y_to_index(grid: &Grid, x: i32, y: i32) -> (index: Option<usize>)
    ensures
        index is Some <==> grid@.in_bounds(x as int, y as int),
        match index {
            Some(i) => grid@.index_of(x as int, y as int) == Some(i as int),
            None => grid@.index_of(x as int, y as int) is None,
        },
        index matches Some(i) ==> i < grid@.cells.len(),
{
    proof {
        use_type_invariant(grid);
    }
    if x < 0 || x >= grid.size || y < 0 || y >= grid.size {
        None
    } else {
        proof {
            lemma_index_in_range(grid.size as int, x as int, y as int);
        }
        Some((y * grid.size + x) as usize)
    }
}

/// The cell at `(x, y)`, or `None` when `(x, y)` is outside the grid.
pub fn get(grid: &Grid, x: i32, y: i32) -> (cell: Option<&Cell>)
    ensures
        match cell {
            Some(c) => grid@.at(x as int, y as int) == Some(*c),
            None => grid@.at(x as int, y as int) is None,
        },
        !grid@.in_bounds(x as int, y as int) ==> cell is None,
{
    match x_y_to_index(grid, x, y) {
        Some(index) => Some(&grid.cells[index]),
        None => None,
    }
}

/// Writes `value` at `(x, y)`; does nothing when `(x, y)` is outside the
/// grid.
pub fn set(grid: &mut Grid, x: i32, y: i32, value: Cell)
    ensures
        final(grid)@ == old(grid)@.with_cell(x as int, y as int, value),
        !old(grid)@.in_bounds(x as int, y as int) ==> final(grid)@ == old(grid)@,
        final(grid)@.wf(),
        final(grid)@.size == old(grid)@.size,
{
    proof {
        use_type_invariant(&*grid);
    }
    match x_y_to_index(grid, x, y) {
        Some(index) => {
            grid.cells[index] = value;
        },
        None => {},
    }
}

impl GridView {
    /// What cell `(cx, cy)` of the next grid holds once the grains that the
    /// walk has passed have been placed.
    spec fn settled_so_far(self, x: int, y: int, cx: int, cy: int) -> Cell {
        if (self.rests(cx, cy) && passed(x, y, cx, cy)) || (self.receives(cx, cy) && passed(
            x,
            y,
            cx,
            cy + 1,
        )) {
            Cell::Sand
        } else {
            Cell::Air
        }
    }

    /// The next grid as far as the walk has built it at `(x, y)`.
    spec fn stepped_so_far(self, x: int, y: int) -> GridView {
        GridView {
            size: self.size,
            cells: Seq::new(
                self.cells.len(),
                |i: int|
                    self.settled_so_far(x, y, column_of(self.size, i), row_of(self.size, i)),
            ),
        }
    }

    /// Placing the grain of `(x, y)`, if there is one, takes the next grid
    /// from the walk's state at `(x, y)` to its state at `(x, y + 1)`.
    proof fn lemma_place(self, x: int, y: int)
        requires
            self.wf(),
            self.in_bounds(x, y),
        ensures
            self.at(x, y) == Some(Cell::Air) ==> self.stepped_so_far(x, y + 1)
                == self.stepped_so_far(x, y),
            self.rests(x, y) ==> self.stepped_so_far(x, y + 1) == self.stepped_so_far(
                x,
                y,
            ).with_cell(x, y, Cell::Sand),
            self.at(x, y) == Some(Cell::Sand) && !self.rests(x, y) ==> self.stepped_so_far(
                x,
                y + 1,
            ) == self.stepped_so_far(x, y).with_cell(x, y - 1, Cell::Sand),
    {
        let size = self.size;
        let before = self.stepped_so_far(x, y);
        let after = self.stepped_so_far(x, y + 1);
        lemma_index_in_range(size, x, y);
        lemma_coordinates_of_cell(size, x, y);
        if y > 0 {
            lemma_index_in_range(size, x, y - 1);
            lemma_coordinates_of_cell(size, x, y - 1);
        }
        assert forall|i: int| 0 <= i < self.cells.len() implies inside(
            size,
            column_of(size, i),
            row_of(size, i),
        ) && cell_index(size, column_of(size, i), row_of(size, i)) == i by {
            lemma_cell_of_index(size, i);
        }
        if self.at(x, y) == Some(Cell::Air) {
            assert(after.cells =~= before.cells);
        } else if self.rests(x, y) {
            assert(after.cells =~= before.with_cell(x, y, Cell::Sand).cells);
        } else {
            assert(after.cells =~= before.with_cell(x, y - 1, Cell::Sand).cells);
        }
    }

    /// Before the walk starts nothing has been placed, a finished column
    /// hands over to the next, and after the last column the next grid is
    /// complete.
    proof fn lemma_walk(self, x: int)
        requires
            self.wf(),
            0 <= x <= self.size,
        ensures
            self.stepped_so_far(0, 0).cells == Seq::new(self.cells.len(), |i: int| Cell::Air),
            self.stepped_so_far(x, self.size) == self.stepped_so_far(x + 1, 0),
            self.stepped_so_far(self.size, 0) == self.stepped(),
    {
        let size = self.size;
        assert forall|i: int| 0 <= i < self.cells.len() implies inside(
            size,
            column_of(size, i),
            row_of(size, i),
        ) by {
            lemma_cell_of_index(size, i);
        }
        assert(self.stepped_so_far(0, 0).cells =~= Seq::new(
            self.cells.len(),
            |i: int| Cell::Air,
        ));
        assert(self.stepped_so_far(x, size).cells =~= self.stepped_so_far(x + 1, 0).cells);
        assert(self.stepped_so_far(size, 0).cells =~= self.stepped().cells);
    }
}

/// One step of the simulation: the grid that follows `grid`.
pub fn step(grid: &Grid) -> (next: Grid)
    ensures
        next@ == grid@.stepped(),
        next@.wf(),
        next@.size == grid@.size,
{
    proof {
        use_type_invariant(grid);
    }
    let mut new_grid = Grid::new(grid.size);
    proof {
        grid@.lemma_walk(0);
    }
    let mut x: i32 = 0;
    while x < grid.size
        invariant
            grid@.wf(),
            0 <= x <= grid.size,
            new_grid@ == grid@.stepped_so_far(x as int, 0),
        decreases grid.size - x,
    {
        let mut y: i32 = 0;
        while y < grid.size
            invariant
                grid@.wf(),
                0 <= x < grid.size,
                0 <= y <= grid.size,
                new_grid@ == grid@.stepped_so_far(x as int, y as int),
            decreases grid.size - y,
        {
            proof {
                grid@.lemma_place(x as int, y as int);
            }
            let cell = get(grid, x, y).unwrap();
            match cell {
                Cell::Air => {},
                Cell::Sand => {
                    if y == 0 {
                        set(&mut new_grid, x, y, Cell::Sand);
                    } else {
                        let below = get(grid, x, y - 1);
                        match below {
                            Some(Cell::Air) => {
                                set(&mut new_grid, x, y - 1, Cell::Sand);
                            },
                            _ => {
                                set(&mut new_grid, x, y, Cell::Sand);
                            },
                        }
                    }
                },
            }
            y = y + 1;
        }
        proof {
            grid@.lemma_walk(x as int);
        }
        x = x + 1;
    }
    proof {
        grid@.lemma_walk(x as int);
    }
    new_grid
}

impl GridView {
    /// The grid once the brush has painted the cells that its walk over the
    /// columns has passed at `(px, py)`.
    spec fn painted_so_far(self, x: int, y: int, radius: int, px: int, py: int) -> GridView {
        GridView {
            size: self.size,
            cells: Seq::new(
                self.cells.len(),
                |i: int|
                    if Self::brush_covers(
                        x,
                        y,
                        radius,
                        column_of(self.size, i),
                        row_of(self.size, i),
                    ) && passed(px, py, column_of(self.size, i), row_of(self.size, i)) {
                        Cell::Sand
                    } else {
                        self.cells[i]
                    },
            ),
        }
    }

    /// Painting the covered cell `(cx, cy)` moves the brush's walk on by one
    /// cell.
    proof fn lemma_paint(self, x: int, y: int, radius: int, cx: int, cy: int)
        requires
            self.wf(),
            self.in_bounds(cx, cy),
            Self::brush_covers(x, y, radius, cx, cy),
        ensures
            self.painted_so_far(x, y, radius, cx, cy + 1) == self.painted_so_far(
                x,
                y,
                radius,
                cx,
                cy,
            ).with_cell(cx, cy, Cell::Sand),
    {
        let size = self.size;
        lemma_index_in_range(size, cx, cy);
        lemma_coordinates_of_cell(size, cx, cy);
        assert forall|i: int| 0 <= i < self.cells.len() implies cell_index(
            size,
            column_of(size, i),
            row_of(size, i),
        ) == i by {
            lemma_cell_of_index(size, i);
        }
        assert(self.painted_so_far(x, y, radius, cx, cy + 1).cells =~= self.painted_so_far(
            x,
            y,
            radius,
            cx,
            cy,
        ).with_cell(cx, cy, Cell::Sand).cells);
    }

    /// The brush's walk over the part of the grid that the square covers,
    /// columns `first_x..=last_x` and rows `first_y..=last_y`: nothing is
    /// painted before it starts, a finished column hands over to the next,
    /// after the last column the painting is complete, and where the square
    /// misses the grid nothing is painted.
    proof fn lemma_brush_walk(
        self,
        x: int,
        y: int,
        radius: int,
        first_x: int,
        last_x: int,
        first_y: int,
        last_y: int,
        cx: int,
    )
        requires
            self.wf(),
            first_x == if x - radius > 0 { x - radius } else { 0 },
            first_y == if y - radius > 0 { y - radius } else { 0 },
            last_x == if x + radius < self.size - 1 { x + radius } else { self.size - 1 },
            last_y == if y + radius < self.size - 1 { y + radius } else { self.size - 1 },
        ensures
            self.painted_so_far(x, y, radius, first_x, first_y) == self,
            self.painted_so_far(x, y, radius, cx, last_y + 1) == self.painted_so_far(
                x,
                y,
                radius,
                cx + 1,
                first_y,
            ),
            self.painted_so_far(x, y, radius, last_x + 1, first_y) == self.painted(x, y, radius),
            first_x > last_x || first_y > last_y ==> self.painted(x, y, radius) == self,
    {
        let size = self.size;
        assert forall|i: int| 0 <= i < self.cells.len() implies inside(
            size,
            column_of(size, i),
            row_of(size, i),
        ) by {
            lemma_cell_of_index(size, i);
        }
        assert(self.painted_so_far(x, y, radius, first_x, first_y).cells =~= self.cells);
        assert(self.painted_so_far(x, y, radius, cx, last_y + 1).cells
            =~= self.painted_so_far(x, y, radius, cx + 1, first_y).cells);
        assert(self.painted_so_far(x, y, radius, last_x + 1, first_y).cells =~= self.painted(
            x,
            y,
            radius,
        ).cells);
        if first_x > last_x || first_y > last_y {
            assert(self.painted(x, y, radius).cells =~= self.cells);
        }
    }
}

/// Paints sand over the square of cells from `(x - size, y - size)` to
/// `(x + size, y + size)`, as far as it lies inside the grid.
pub fn draw_point(grid: &mut Grid, x: i32, y: i32, size: i32)
    ensures
        final(grid)@ == old(grid)@.painted(x as int, y as int, size as int),
        final(grid)@.wf(),
        final(grid)@.size == old(grid)@.size,
{
    proof {
        use_type_invariant(&*grid);
    }
    let side: i64 = grid.size as i64;
    let left: i64 = x as i64 - size as i64;
    let right: i64 = x as i64 + size as i64;
    let bottom: i64 = y as i64 - size as i64;
    let top: i64 = y as i64 + size as i64;
    let first_x: i64 = if left > 0 { left } else { 0 };
    let first_y: i64 = if bottom > 0 { bottom } else { 0 };
    let last_x: i64 = if right < side - 1 { right } else { side - 1 };
    let last_y: i64 = if top < side - 1 { top } else { side - 1 };
    proof {
        grid@.lemma_brush_walk(
            x as int,
            y as int,
            size as int,
            first_x as int,
            last_x as int,
            first_y as int,
            last_y as int,
            0,
        );
    }
    if first_x > last_x || first_y > last_y {
        return ;
    }
    let mut cx: i64 = first_x;
    while cx <= last_x
        invariant
            old(grid)@.wf(),
            side == old(grid)@.size,
            first_x == if x - size > 0 { x - size } else { 0 },
            first_y == if y - size > 0 { y - size } else { 0 },
            last_x == if x + size < side - 1 { x + size } else { side - 1 },
            last_y == if y + size < side - 1 { y + size } else { side - 1 },
            first_y <= last_y,
            first_x <= cx <= last_x + 1,
            grid@ == old(grid)@.painted_so_far(
                x as int,
                y as int,
                size as int,
                cx as int,
                first_y as int,
            ),
        decreases last_x + 1 - cx,
    {
        let mut cy: i64 = first_y;
        while cy <= last_y
            invariant
                old(grid)@.wf(),
                side == old(grid)@.size,
                first_x == if x - size > 0 { x - size } else { 0 },
                first_y == if y - size > 0 { y - size } else { 0 },
                last_x == if x + size < side - 1 { x + size } else { side - 1 },
                last_y == if y + size < side - 1 { y + size } else { side - 1 },
                first_x <= cx <= last_x,
                first_y <= cy <= last_y + 1,
                grid@ == old(grid)@.painted_so_far(
                    x as int,
                    y as int,
                    size as int,
                    cx as int,
                    cy as int,
                ),
            decreases last_y + 1 - cy,
        {
            proof {
                old(grid)@.lemma_paint(x as int, y as int, size as int, cx as int, cy as int);
            }
            set(grid, cx as i32, cy as i32, Cell::Sand);
            cy = cy + 1;
        }
        proof {
            old(grid)@.lemma_brush_walk(
                x as int,
                y as int,
                size as int,
                first_x as int,
                last_x as int,
                first_y as int,
                last_y as int,
                cx as int,
            );
        }
        cx = cx + 1;
    }
}

/// The positions that a list of cell coordinates names.
pub open spec fn positions(cells: Seq<(i32, i32)>) -> Seq<(int, int)> {
    cells.map_values(|cell: (i32, i32)| (cell.0 as int, cell.1 as int))
}

/// The cells that hold sand, as `(x, y)`, row by row from the floor up:
/// cell `index` lies in column `index % size` of row `index / size`. These
/// are the squares to draw for the grid.
pub fn sand_cells(grid: &Grid) -> (found: Vec<(i32, i32)>)
    ensures
        positions(found@) == grid@.grains(),
        found@.len() == grid@.population(),
{
    proof {
        use_type_invariant(grid);
    }
    let mut found: Vec<(i32, i32)> = Vec::new();
    let mut index: usize = 0;
    while index < grid.cells.len()
        invariant
            grid@.wf(),
            grid@.cells.len() <= i32::MAX,
            index <= grid@.cells.len(),
            positions(found@) == grid@.grains_before(index as int),
        decreases grid@.cells.len() - index,
    {
        proof {
            lemma_cell_of_index(grid@.size, index as int);
        }
        if grid.cells[index] == Cell::Sand {
            let side: usize = grid.size as usize;
            let x: i32 = (index % side) as i32;
            let y: i32 = (index / side) as i32;
            proof {
                assert(positions(found@.push((x, y))) =~= positions(found@).push(
                    (x as int, y as int),
                ));
            }
            found.push((x, y));
        }
        index = index + 1;
    }
    found
}

/// Fills the grid anew: every cell gets one of the two `choices`, each
/// drawn from the thread's random generator.
pub fn fill_grid_randomly(grid: &mut Grid, choices: [Cell; 2])
    ensures
        final(grid)@.wf(),
        final(grid)@.size == old(grid)@.size,
        forall|i: int|
            0 <= i < final(grid)@.cells.len() ==> final(grid)@.cells[i] == choices@[0]
                || final(grid)@.cells[i] == choices@[1],
{
    proof {
        use_type_invariant(&*grid);
    }
    let mut rng = thread_rng();
    let count: usize = grid.cells.len();
    let mut cells: Vec<Cell> = Vec::new();
    while cells.len() < count
        invariant
            cells@.len() <= count,
            forall|i: int|
                0 <= i < cells@.len() ==> cells@[i] == choices@[0] || cells@[i] == choices@[1],
        decreases count - cells@.len(),
    {
        let picked = pick(choices.as_slice(), &mut rng);
        cells.push(*picked.unwrap());
    }
    grid.cells = cells;
}

/// The state of a game: the grid as it stands.
pub struct GameState {
    grid: Grid,
}

impl View for GameState {
    type V = GridView;

    closed spec fn view(&self) -> GridView {
        self.grid@
    }
}

impl GameState {
    /// A game on a grid of side `GRID_SIZE` in which every cell is empty or
    /// holds sand, as the random generator decides.
    pub fn new() -> (state: GameState)
        ensures
            state@.wf(),
            state@.size == GRID_SIZE,
    {
        let mut grid = Grid::new(GRID_SIZE);
        let choices = [Cell::Air, Cell::Sand];
        fill_grid_randomly(&mut grid, choices);
        GameState { grid }
    }

    /// The grid as it stands.
    pub fn grid(&self) -> (grid: &Grid)
        ensures
            grid@ == self@,
    {
        &self.grid
    }
}

/// One frame of the game. The squares to draw are those of the grid as the
/// frame finds it. Then, if the pointer is held down over cell `(x, y)`,
/// sand is painted around that cell, and the grid takes one step.
pub fn update(state: &mut GameState, pointer: Option<(i32, i32)>) -> (drawn: Vec<(i32, i32)>)
    ensures
        positions(drawn@) == old(state)@.grains(),
        final(state)@ == match pointer {
            Some((x, y)) => old(state)@.painted(x as int, y as int, BRUSH_RADIUS as int).stepped(),
            None => old(state)@.stepped(),
        },
        final(state)@.wf(),
        final(state)@.size == old(state)@.size,
{
    let drawn = sand_cells(&state.grid);
    match pointer {
        Some((x, y)) => {
            draw_point(&mut state.grid, x, y, BRUSH_RADIUS);
        },
        None => {},
    }
    state.grid = step(&state.grid);
    drawn
}

} // verus!
