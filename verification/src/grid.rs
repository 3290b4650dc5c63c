use ndarray::Array2;
use vstd::prelude::*;

verus! {

/// A dense two-dimensional array of cells, stored by `ndarray`.
///
/// Verus does not look inside: what a grid holds is known through
/// [`grid_cells`] and [`grid_width`] alone, and through the contracts that the
/// functions of this module give to the `ndarray` calls they make.
#[verifier::external_body]
#[derive(Debug)]
pub struct Grid {
    cells: Array2<u8>,
}

/// The cells of `grid`, row by row.
pub uninterp spec fn grid_cells(grid: Grid) -> Seq<Seq<u8>>;

/// The number of columns of `grid`; it is known even when there is no row.
pub uninterp spec fn grid_width(grid: Grid) -> nat;

/// `ndarray` makes an array only if the product of its non-zero axis lengths
/// fits in `isize`.
pub open spec fn shape_fits(rows: nat, cols: nat) -> bool {
    if rows == 0 {
        cols <= isize::MAX
    } else if cols == 0 {
        rows <= isize::MAX
    } else {
        rows * cols <= isize::MAX
    }
}

/// Rows of `cells` all have `cols` cells.
pub open spec fn is_rectangular(cells: Seq<Seq<u8>>, cols: nat) -> bool {
    forall|r: int| 0 <= r < cells.len() ==> (#[trigger] cells[r]).len() == cols
}

/// The sum of the cells of one row.
pub open spec fn row_total(row: Seq<u8>) -> nat
    decreases row.len(),
{
    if row.len() == 0 {
        0
    } else {
        row_total(row.drop_last()) + row.last() as nat
    }
}

/// The sum of all cells.
pub open spec fn total(cells: Seq<Seq<u8>>) -> nat
    decreases cells.len(),
{
    if cells.len() == 0 {
        0
    } else {
        total(cells.drop_last()) + row_total(cells.last())
    }
}

/// The rows that a vector of vectors holds.
pub open spec fn row_views(rows: Seq<Vec<u8>>) -> Seq<Seq<u8>> {
    Seq::new(rows.len(), |k: int| rows[k]@)
}

impl View for Grid {
    type V = Seq<Seq<u8>>;

    open spec fn view(&self) -> Seq<Seq<u8>> {
        grid_cells(*self)
    }
}

impl Grid {
    /// The number of rows.
    pub fn nrows(&self) -> (n: usize)
        ensures
            n == self@.len(),
    {
        grid_dim(self).0
    }

    /// The number of columns.
    pub fn ncols(&self) -> (n: usize)
        ensures
            n == grid_width(*self),
            is_rectangular(self@, n as nat),
    {
        grid_dim(self).1
    }

    /// The cell at `row` and `col`, or nothing where the grid has no such
    /// place.
    pub fn get(&self, row: usize, col: usize) -> (cell: Option<u8>)
        ensures
            cell == if row < self@.len() && col < grid_width(*self) {
                Some(self@[row as int][col as int])
            } else {
                None
            },
    {
        let shape = grid_dim(self);
        if row < shape.0 && col < shape.1 {
            Some(grid_get(self, row, col))
        } else {
            None
        }
    }

    /// A copy of the cells, row by row.
    pub fn to_rows(&self) -> (rows: Vec<Vec<u8>>)
        ensures
            row_views(rows@) == self@,
    {
        let shape = grid_dim(self);
        let mut rows: Vec<Vec<u8>> = Vec::new();
        for r in 0..shape.0
            invariant
                shape.0 == self@.len(),
                shape.1 == grid_width(*self),
                is_rectangular(self@, shape.1 as nat),
                rows@.len() == r,
                forall|k: int| 0 <= k < r ==> (#[trigger] rows@[k])@ == self@[k],
        {
            let mut row: Vec<u8> = Vec::new();
            for c in 0..shape.1
                invariant
                    r < shape.0,
                    shape.0 == self@.len(),
                    self@[r as int].len() == shape.1,
                    row@.len() == c,
                    forall|i: int| 0 <= i < c ==> #[trigger] row@[i] == self@[r as int][i],
            {
                row.push(grid_get(self, r, c));
            }
            assert(row@ =~= self@[r as int]);
            rows.push(row);
        }
        assert(row_views(rows@) =~= self@);
        rows
    }
}

/// `Array2::<u8>::zeros((rows, cols))`: an array of that shape whose cells are
/// all 0. The call panics when the shape is too large, hence the `requires`.
#[verifier::external_body]
pub(crate) fn grid_zeros(rows: usize, cols: usize) -> (grid: Grid)
    requires
        shape_fits(rows as nat, cols as nat),
    ensures
        grid_width(grid) == cols,
        grid_cells(grid) == Seq::new(rows as nat, |r: int| Seq::new(cols as nat, |c: int| 0u8)),
{
    Grid { cells: Array2::<u8>::zeros((rows, cols)) }
}

/// `ArrayBase::dim`: the lengths of the two axes, rows first. The array is
/// two-dimensional, so each of its rows has as many cells as the second axis
/// is long.
#[verifier::external_body]
pub(crate) fn grid_dim(grid: &Grid) -> (shape: (usize, usize))
    ensures
        shape.0 == grid_cells(*grid).len(),
        shape.1 == grid_width(*grid),
        is_rectangular(grid_cells(*grid), shape.1 as nat),
{
    grid.cells.dim()
}

/// Indexing, `array[[row, col]]`: the cell at that place. The index must be
/// inside the array, or the call panics.
#[verifier::external_body]
pub(crate) fn grid_get(grid: &Grid, row: usize, col: usize) -> (cell: u8)
    requires
        row < grid_cells(*grid).len(),
        col < grid_cells(*grid)[row as int].len(),
    ensures
        cell == grid_cells(*grid)[row as int][col as int],
{
    grid.cells[[row, col]]
}

/// Assignment through an index, `array[[row, col]] = cell`: that one cell
/// changes and nothing else does. The index must be inside the array, or the
/// call panics.
#[verifier::external_body]
pub(crate) fn grid_set(grid: &mut Grid, row: usize, col: usize, cell: u8)
    requires
        row < grid_cells(*old(grid)).len(),
        col < grid_cells(*old(grid))[row as int].len(),
    ensures
        grid_width(*final(grid)) == grid_width(*old(grid)),
        grid_cells(*final(grid)) == grid_cells(*old(grid)).update(
            row as int,
            grid_cells(*old(grid))[row as int].update(col as int, cell),
        ),
{
    grid.cells[[row, col]] = cell;
}

/// `ArrayBase::sum` over the cells widened to `usize` by
/// `ArrayBase::mapv_into_any`: the sum of all cells. The addition panics on
/// overflow, hence the `requires`.
#[verifier::external_body]
pub(crate) fn grid_sum(grid: &Grid) -> (sum: usize)
    requires
        total(grid_cells(*grid)) <= usize::MAX,
    ensures
        sum == total(grid_cells(*grid)),
{
    grid.cells.clone().mapv_into_any(usize::from).sum()
}

} // verus!
