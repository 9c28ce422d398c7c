use vstd::prelude::*;
use grid::Grid;

verus! {

/// The longest side, in cells, that an occupancy grid may have.
pub const MAX_SIDE: usize = 65536;

#[verifier::external_type_specification]
#[verifier::external_body]
#[verifier::reject_recursive_types(T)]
pub struct ExGrid<T>(Grid<T>);

/// What a `Grid` holds: its rows, top to bottom, each a sequence of its cells
/// from left to right.
pub uninterp spec fn tiles_of(g: Grid<u32>) -> Seq<Seq<u32>>;

/// `v` cut into consecutive rows of `cols` cells.
pub open spec fn chunked(v: Seq<u32>, cols: nat) -> Seq<Seq<u32>> {
    Seq::new(v.len() / cols, |r: int| v.subrange(r * cols, r * cols + cols))
}

/// Relies on `Grid::from_vec`: the vector is read row by row, `cols` cells to
/// a row (it panics unless the length is a multiple of `cols`).
#[verifier::external_body]
fn grid_from_vec(v: Vec<u32>, cols: usize) -> (g: Grid<u32>)
    requires
        cols > 0,
        v@.len() % (cols as nat) == 0,
    ensures
        tiles_of(g) == chunked(v@, cols as nat),
{
    Grid::from_vec(v, cols)
}

/// Relies on `Grid::get`: the cell at (`row`, `col`), or `None` where an index
/// is negative or past the grid's edge.
#[verifier::external_body]
fn grid_get(g: &Grid<u32>, row: i64, col: i64) -> (r: Option<u32>)
    ensures
        r == (if 0 <= row < tiles_of(*g).len() && 0 <= col < tiles_of(*g)[row as int].len() {
            Some(tiles_of(*g)[row as int][col as int])
        } else {
            None::<u32>
        }),
{
    g.get(row, col).copied()
}

/// Relies on `Grid::rows`: the number of rows.
#[verifier::external_body]
fn grid_rows(g: &Grid<u32>) -> (r: usize)
    ensures
        r == tiles_of(*g).len(),
{
    g.rows()
}

/// Relies on `Grid::cols`: the number of cells in each row.
#[verifier::external_body]
fn grid_cols(g: &Grid<u32>) -> (r: usize)
    ensures
        tiles_of(*g).len() > 0 ==> r == tiles_of(*g)[0].len(),
{
    g.cols()
}

/// Why a grid could not be built.
#[derive(Debug, Clone, Copy, PartialEq, Eq, Structural)]
pub enum GridError {
    /// Two rows differ in length.
    Ragged,
    /// There are no cells at all.
    Empty,
    /// A side is longer than `MAX_SIDE` cells.
    TooLarge,
}

/// An immutable map of tiles: code 0 is open floor, any positive code a wall.
/// The cell in column `x` and row `y` is `rows()[y][x]`.
pub struct OccupancyGrid {
    tiles: Grid<u32>,
}

impl OccupancyGrid {
    pub closed spec fn rows(&self) -> Seq<Seq<u32>> {
        tiles_of(self.tiles)
    }

    pub open spec fn height(&self) -> int {
        self.rows().len() as int
    }

    pub open spec fn width(&self) -> int {
        if self.rows().len() > 0 { self.rows()[0].len() as int } else { 0 }
    }

    /// Rectangular, not empty, and no side longer than `MAX_SIDE`.
    pub open spec fn wf(&self) -> bool {
        &&& 0 < self.height() <= MAX_SIDE
        &&& 0 < self.width() <= MAX_SIDE
        &&& forall|r: int| 0 <= r < self.height() ==> #[trigger] self.rows()[r].len() == self.width()
    }

    pub open spec fn inside(&self, x: int, y: int) -> bool {
        0 <= x < self.width() && 0 <= y < self.height()
    }

    /// The tile code at column `x`, row `y` (meaningful inside the grid).
    pub open spec fn tile(&self, x: int, y: int) -> u32 {
        self.rows()[y][x]
    }

    pub open spec fn solid(&self, x: int, y: int) -> bool {
        self.inside(x, y) && self.tile(x, y) > 0
    }

    /// Every cell on the outer ring is solid.
    pub open spec fn enclosed(&self) -> bool {
        forall|x: int, y: int|
            #![trigger self.tile(x, y)]
            self.inside(x, y) && (x == 0 || y == 0 || x == self.width() - 1 || y == self.height() - 1)
                ==> self.tile(x, y) > 0
    }

    /// Builds a grid from its rows, top to bottom.
    pub fn from_rows(rows: &Vec<Vec<u32>>) -> (r: Result<OccupancyGrid, GridError>)
        ensures
            (rows@.len() == 0 || rows@[0]@.len() == 0) <==> r == Err::<OccupancyGrid, GridError>(GridError::Empty),
            r is Ok <==> {
                &&& 0 < rows@.len() <= MAX_SIDE
                &&& 0 < rows@[0]@.len() <= MAX_SIDE
                &&& forall|i: int| 0 <= i < rows@.len() ==> #[trigger] rows@[i]@.len() == rows@[0]@.len()
            },
            r == Err::<OccupancyGrid, GridError>(GridError::Ragged) <==> {
                &&& rows@.len() > 0 && rows@[0]@.len() > 0
                &&& exists|i: int| 0 <= i < rows@.len() && #[trigger] rows@[i]@.len() != rows@[0]@.len()
            },
            r matches Ok(g) ==> g.wf() && g.height() == rows@.len() && forall|y: int, x: int|
                #![trigger g.tile(x, y)]
                0 <= y < g.height() && 0 <= x < g.width() ==> g.tile(x, y) == rows@[y]@[x],
    {
        if rows.len() == 0 || rows[0].len() == 0 {
            return Err(GridError::Empty);
        }
        let cols = rows[0].len();
        let mut i: usize = 0;
        while i < rows.len()
            invariant
                0 <= i <= rows@.len(),
                0 < cols == rows@[0]@.len(),
                forall|j: int| 0 <= j < i ==> #[trigger] rows@[j]@.len() == cols,
            decreases rows@.len() - i,
        {
            if rows[i].len() != cols {
                assert(rows@[i as int]@.len() != rows@[0]@.len());
                return Err(GridError::Ragged);
            }
            i = i + 1;
        }
        if rows.len() > MAX_SIDE || cols > MAX_SIDE {
            return Err(GridError::TooLarge);
        }
        let mut cells: Vec<u32> = Vec::new();
        let mut y: usize = 0;
        while y < rows.len()
            invariant
                0 <= y <= rows@.len() <= MAX_SIDE,
                0 < cols <= MAX_SIDE,
                forall|j: int| 0 <= j < rows@.len() ==> #[trigger] rows@[j]@.len() == cols,
                cells@.len() == y * cols,
                forall|j: int, x: int|
                    0 <= j < y && 0 <= x < cols ==> cells@[j * cols + x] == #[trigger] rows@[j]@[x],
            decreases rows@.len() - y,
        {
            let row = &rows[y];
            let mut x: usize = 0;
            while x < cols
                invariant
                    0 <= y < rows@.len() <= MAX_SIDE,
                    0 < cols <= MAX_SIDE,
                    row@ == rows@[y as int]@,
                    row@.len() == cols,
                    0 <= x <= cols,
                    cells@.len() == y * cols + x,
                    forall|j: int, c: int|
                        0 <= j < y && 0 <= c < cols ==> cells@[j * cols + c] == #[trigger] rows@[j]@[c],
                    forall|c: int| 0 <= c < x ==> cells@[y * cols + c] == #[trigger] row@[c],
                decreases cols - x,
            {
                assert(y * cols + x < MAX_SIDE * MAX_SIDE) by (nonlinear_arith)
                    requires y < MAX_SIDE, x < cols, cols <= MAX_SIDE;
                cells.push(row[x]);
                assert forall|j: int, c: int|
                    0 <= j < y && 0 <= c < cols implies cells@[j * cols + c] == #[trigger] rows@[j]@[c] by {
                    assert(0 <= j * cols + c < y * cols) by (nonlinear_arith)
                        requires 0 <= j < y, 0 <= c < cols;
                }
                x = x + 1;
            }
            assert forall|j: int, c: int|
                0 <= j < y + 1 && 0 <= c < cols implies cells@[j * cols + c] == #[trigger] rows@[j]@[c] by {
                if j == y {
                } else {
                    assert(j * cols + c < y * cols) by (nonlinear_arith)
                        requires j < y, c < cols;
                }
            }
            assert((y + 1) * cols == y * cols + cols) by (nonlinear_arith);
            y = y + 1;
        }
        proof {
            assert(cells@.len() % (cols as nat) == 0) by {
                vstd::arithmetic::div_mod::lemma_mod_multiples_basic(rows@.len() as int, cols as int);
            }
        }
        let tiles = grid_from_vec(cells, cols);
        let g = OccupancyGrid { tiles };
        proof {
            let n = rows@.len() as int;
            let c = cols as int;
            vstd::arithmetic::div_mod::lemma_div_multiples_vanish(n, c);
            assert(g.height() == n);
            assert forall|r: int| 0 <= r < n implies #[trigger] g.rows()[r].len() == c by {
                assert(r * c + c <= n * c) by (nonlinear_arith)
                    requires r < n, c > 0;
            }
            assert forall|y: int, x: int|
                #![trigger g.tile(x, y)]
                0 <= y < g.height() && 0 <= x < g.width() implies g.tile(x, y) == rows@[y]@[x] by {
                assert(y * c + c <= n * c) by (nonlinear_arith)
                    requires y < n, c > 0;
                assert(0 <= y * c) by (nonlinear_arith)
                    requires 0 <= y, c > 0;
                assert(cells@[y * c + x] == rows@[y]@[x]);
            }
        }
        Ok(g)
    }

    /// The tile code at column `x`, row `y`, or `None` off the grid.
    pub fn query(&self, x: i64, y: i64) -> (r: Option<u32>)
        requires
            self.wf(),
        ensures
            r == (if self.inside(x as int, y as int) {
                Some(self.tile(x as int, y as int))
            } else {
                None::<u32>
            }),
    {
        grid_get(&self.tiles, y, x)
    }

    /// The number of columns.
    pub fn width_cells(&self) -> (r: usize)
        requires
            self.wf(),
        ensures
            r == self.width(),
    {
        grid_cols(&self.tiles)
    }

    /// The number of rows.
    pub fn height_cells(&self) -> (r: usize)
        requires
            self.wf(),
        ensures
            r == self.height(),
    {
        grid_rows(&self.tiles)
    }
}

} // verus!
