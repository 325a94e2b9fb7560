//! The maze: a rectangular grid of cell symbols, and the collision test against it.

use vstd::prelude::*;
use crate::fixed::ONE;

verus! {

/// The symbol of a passable cell. Every other symbol is a wall.
pub const EMPTY: char = ' ';

/// Whether `cells` has at least one row, at least one column, and rows of equal length.
pub open spec fn rectangular(cells: Seq<Seq<char>>) -> bool {
    &&& cells.len() > 0
    &&& cells[0].len() > 0
    &&& forall|r: int| 0 <= r < cells.len() ==> (#[trigger] cells[r]).len() == cells[0].len()
}

/// The column (or row) of the cell that contains the fixed-point world coordinate `coord`
/// when cells are `block_size` world units wide: the coordinate divided by the cell width,
/// rounded down. Negative coordinates give negative indices.
pub open spec fn cell_index(coord: int, block_size: int) -> int {
    (coord / (ONE as int)) / block_size
}

/// The cell width that fits the whole grid on a screen: the smaller of the per-column
/// and per-row quotient.
pub open spec fn fitting_block_size(screen_width: int, screen_height: int, cols: int, rows: int) -> int {
    if screen_width / cols <= screen_height / rows {
        screen_width / cols
    } else {
        screen_height / rows
    }
}

/// The cell index is negative exactly for negative coordinates.
pub proof fn lemma_cell_index_sign(coord: int, block_size: int)
    requires
        block_size > 0,
    ensures
        coord < 0 <==> cell_index(coord, block_size) < 0,
{
    let units = coord / (ONE as int);
    assert(units < 0 <==> units / block_size < 0) by (nonlinear_arith)
        requires
            block_size > 0,
    ;
}

/// The cell with index `i` covers exactly the coordinates from `i * block_size * ONE` up to,
/// but not including, `(i + 1) * block_size * ONE`.
pub proof fn lemma_cell_index_span(coord: int, block_size: int, i: int)
    requires
        block_size > 0,
    ensures
        cell_index(coord, block_size) == i <==> i * block_size * ONE <= coord < (i + 1) * block_size
            * ONE,
{
    let units = coord / (ONE as int);
    assert(units * ONE <= coord < (units + 1) * ONE);
    assert(units / block_size == i <==> i * block_size <= units < (i + 1) * block_size)
        by (nonlinear_arith)
        requires
            block_size > 0,
    ;
    let lo = i * block_size;
    let hi = (i + 1) * block_size;
    assert(lo * ONE == i * block_size * ONE);
    assert(hi * ONE == (i + 1) * block_size * ONE);
    assert(lo <= units <==> lo * ONE <= coord);
    assert(units < hi <==> coord < hi * ONE);
}

/// The fixed-point coordinate of the middle of the cell with index `i`.
pub open spec fn cell_center(i: int, block_size: int) -> int {
    i * block_size * ONE + (block_size * ONE) / 2
}

/// An immutable rectangular maze. Row 0 is the top row, column 0 the left column.
#[derive(Debug)]
pub struct Grid {
    cells: Vec<Vec<char>>,
}

impl View for Grid {
    type V = Seq<Seq<char>>;

    closed spec fn view(&self) -> Seq<Seq<char>> {
        self.cells.deep_view()
    }
}

impl Grid {
    /// Every grid that exists at run time is rectangular; ghost values must say so.
    #[verifier::type_invariant]
    pub open spec fn wf(&self) -> bool {
        rectangular(self@)
    }

    /// Number of rows.
    pub open spec fn spec_rows(&self) -> int {
        self@.len() as int
    }

    /// Number of columns.
    pub open spec fn spec_cols(&self) -> int {
        self@[0].len() as int
    }

    /// Wraps `cells` if they form a rectangle with at least one cell.
    pub fn new(cells: Vec<Vec<char>>) -> (grid: Option<Grid>)
        ensures
            grid is Some <==> rectangular(cells.deep_view()),
            grid matches Some(g) ==> g@ == cells.deep_view(),
    {
        if cells.len() == 0 {
            return None;
        }
        let cols = cells[0].len();
        if cols == 0 {
            return None;
        }
        let mut r: usize = 1;
        while r < cells.len()
            invariant
                1 <= r <= cells.len(),
                cols == cells[0].len(),
                cols > 0,
                forall|i: int| 0 <= i < r ==> (#[trigger] cells@[i]).len() == cols,
            decreases cells.len() - r,
        {
            if cells[r].len() != cols {
                proof {
                    assert(cells.deep_view()[r as int].len() == cells@[r as int].len());
                    assert(cells.deep_view()[0].len() == cells@[0].len());
                }
                return None;
            }
            r += 1;
        }
        proof {
            let dv = cells.deep_view();
            assert forall|i: int| 0 <= i < dv.len() implies (#[trigger] dv[i]).len() == dv[0].len() by {
                assert(dv[i].len() == cells@[i].len());
                assert(dv[0].len() == cells@[0].len());
            }
        }
        Some(Grid { cells })
    }

    /// Number of rows.
    pub fn rows(&self) -> (n: usize)
        ensures
            n == self.spec_rows(),
            n > 0,
    {
        proof {
            use_type_invariant(self);
        }
        self.cells.len()
    }

    /// Number of columns.
    pub fn cols(&self) -> (n: usize)
        ensures
            n == self.spec_cols(),
            n > 0,
    {
        proof {
            use_type_invariant(self);
            assert(self@[0].len() == self.cells@[0].len());
        }
        self.cells[0].len()
    }

    /// The symbol stored at `(row, col)`.
    pub fn cell_at(&self, row: usize, col: usize) -> (symbol: char)
        requires
            row < self.spec_rows(),
            col < self.spec_cols(),
        ensures
            symbol == self@[row as int][col as int],
    {
        proof {
            use_type_invariant(self);
            assert(self@[row as int].len() == self.cells@[row as int].len());
            assert(self@[row as int][col as int] == self.cells@[row as int]@[col as int]);
        }
        self.cells[row][col]
    }

    /// The symbol of the cell that contains the point `(x, y)`, or `None` when the point lies
    /// outside the grid.
    pub open spec fn symbol(&self, block_size: int, x: int, y: int) -> Option<char> {
        let col = cell_index(x, block_size);
        let row = cell_index(y, block_size);
        if 0 <= row < self.spec_rows() && 0 <= col < self.spec_cols() {
            Some(self@[row][col])
        } else {
            None
        }
    }

    /// Whether the point `(x, y)` is solid: it lies in a wall cell or outside the grid.
    pub open spec fn blocked(&self, block_size: int, x: int, y: int) -> bool {
        self.symbol(block_size, x, y) != Some(EMPTY)
    }

    /// Looks up the cell under a point given in 128-bit fixed-point coordinates.
    pub(crate) fn symbol_wide(&self, block_size: usize, x: i128, y: i128) -> (symbol: Option<char>)
        requires
            block_size > 0,
        ensures
            symbol == self.symbol(block_size as int, x as int, y as int),
    {
        proof {
            use_type_invariant(self);
        }
        if x < 0 || y < 0 {
            proof {
                lemma_cell_index_sign(x as int, block_size as int);
                lemma_cell_index_sign(y as int, block_size as int);
            }
            return None;
        }
        let col: i128 = (x / (ONE as i128)) / (block_size as i128);
        let row: i128 = (y / (ONE as i128)) / (block_size as i128);
        if row >= self.rows() as i128 || col >= self.cols() as i128 {
            return None;
        }
        Some(self.cell_at(row as usize, col as usize))
    }

    /// The symbol of the cell under the fixed-point position `(x, y)`, if the position is on
    /// the grid.
    pub fn symbol_at(&self, block_size: usize, x: i64, y: i64) -> (symbol: Option<char>)
        requires
            block_size > 0,
        ensures
            symbol == self.symbol(block_size as int, x as int, y as int),
    {
        self.symbol_wide(block_size, x as i128, y as i128)
    }

    /// The collision test on 128-bit fixed-point coordinates.
    pub(crate) fn is_blocked_wide(&self, block_size: usize, x: i128, y: i128) -> (hit: bool)
        requires
            block_size > 0,
        ensures
            hit == self.blocked(block_size as int, x as int, y as int),
    {
        match self.symbol_wide(block_size, x, y) {
            Some(symbol) => symbol != EMPTY,
            None => true,
        }
    }

    /// The collision test: `true` for every position in a wall cell and for every position
    /// off the grid.
    pub fn is_blocked(&self, block_size: usize, x: i64, y: i64) -> (hit: bool)
        requires
            block_size > 0,
        ensures
            hit == self.blocked(block_size as int, x as int, y as int),
    {
        self.is_blocked_wide(block_size, x as i128, y as i128)
    }
}

/// The cell width, in world units, at which `maze` fills a screen of the given size
/// without overflowing it. Zero when the grid has more cells than the screen has pixels
/// along one axis.
pub fn block_size(screen_width: usize, screen_height: usize, maze: &Grid) -> (size: usize)
    ensures
        size == fitting_block_size(
            screen_width as int,
            screen_height as int,
            maze.spec_cols(),
            maze.spec_rows(),
        ),
{
    let by_width = screen_width / maze.cols();
    let by_height = screen_height / maze.rows();
    if by_width <= by_height {
        by_width
    } else {
        by_height
    }
}

/// The world extent that a grid axis of `cells` cells covers, in fixed-point units.
pub open spec fn extent(cells: int, block_size: int) -> int {
    cells * block_size * ONE
}

/// At the centre of a cell the collision test reports a wall exactly when the cell holds a
/// wall symbol.
pub proof fn lemma_center_blocked_iff_wall(grid: Grid, block_size: int, row: int, col: int)
    requires
        grid.wf(),
        block_size > 0,
        0 <= row < grid.spec_rows(),
        0 <= col < grid.spec_cols(),
    ensures
        grid.blocked(block_size, cell_center(col, block_size), cell_center(row, block_size))
            <==> grid@[row][col] != EMPTY,
{
    lemma_center_in_cell(row, block_size);
    lemma_center_in_cell(col, block_size);
}

/// The centre of a cell lies in that cell.
pub proof fn lemma_center_in_cell(i: int, block_size: int)
    requires
        block_size > 0,
    ensures
        cell_index(cell_center(i, block_size), block_size) == i,
{
    let width = block_size * ONE;
    assert((i + 1) * block_size * ONE == i * block_size * ONE + width) by (nonlinear_arith)
        requires
            width == block_size * ONE,
    ;
    assert(0 <= width / 2 < width);
    lemma_cell_index_span(cell_center(i, block_size), block_size, i);
}

/// Fail-closed boundary: every position outside the world extent of the grid is solid.
pub proof fn lemma_outside_is_blocked(grid: Grid, block_size: int, x: int, y: int)
    requires
        grid.wf(),
        block_size > 0,
        !(0 <= x < extent(grid.spec_cols(), block_size) && 0 <= y < extent(
            grid.spec_rows(),
            block_size,
        )),
    ensures
        grid.blocked(block_size, x, y),
{
    lemma_on_grid_iff_in_extent(x, block_size, grid.spec_cols());
    lemma_on_grid_iff_in_extent(y, block_size, grid.spec_rows());
}

/// A coordinate falls on one of the `cells` cells of an axis exactly when it lies within
/// the extent of that axis.
pub proof fn lemma_on_grid_iff_in_extent(coord: int, block_size: int, cells: int)
    requires
        block_size > 0,
        cells > 0,
    ensures
        0 <= cell_index(coord, block_size) < cells <==> 0 <= coord < extent(cells, block_size),
{
    let i = cell_index(coord, block_size);
    lemma_cell_index_span(coord, block_size, i);
    lemma_cell_index_sign(coord, block_size);
    assert(i < cells <==> (i + 1) * block_size * ONE <= cells * block_size * ONE)
        by (nonlinear_arith)
        requires
            block_size > 0,
    ;
    assert(i * block_size * ONE < (i + 1) * block_size * ONE) by (nonlinear_arith)
        requires
            block_size > 0,
    ;
    if i >= cells {
        assert(cells * block_size * ONE <= i * block_size * ONE) by (nonlinear_arith)
            requires
                block_size > 0,
                i >= cells,
        ;
    }
}

} // verus!
