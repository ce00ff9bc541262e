//! The class-by-slot schedule matrix, held in an `ndarray` two-dimensional array.
use vstd::prelude::*;

verus! {

/// One cell of the schedule: the subject index and the lesson reference taught there.
pub type Cell = Option<(usize, usize)>;

/// A matrix indexed by `[class, slot]`, held in an `ndarray::Array2`. Its cells are
/// read and written only through the functions below, which say what they do to
/// `grid_cells`.
#[verifier::external_body]
pub struct Grid {
    cells: ndarray::Array2<Cell>,
}

/// The cells of a grid, row by row: `grid_cells(g)[class][slot]`.
pub uninterp spec fn grid_cells(g: Grid) -> Seq<Seq<Cell>>;

/// The most cells a matrix may have, so that their bytes (at most 32 per cell) fit in
/// `isize` on every target, as allocating them requires.
pub const MAX_CELLS: usize = 0x00ff_ffff;

/// Relies on `ndarray::ArrayBase::default`: an array of the given shape whose every
/// element is `Default::default()`, here `None`. It panics when the element count
/// overflows `isize` (the product of the non-zero axis lengths, so each axis counts on
/// its own) or the allocation is too large, which `requires` rules out.
#[verifier::external_body]
pub(crate) fn grid_new(rows: usize, cols: usize) -> (g: Grid)
    requires
        rows <= MAX_CELLS,
        cols <= MAX_CELLS,
        rows * cols <= MAX_CELLS,
    ensures
        grid_cells(g) == Seq::new(rows as nat, |_r: int| Seq::new(cols as nat, |_c: int| None::<(usize, usize)>)),
{
    Grid { cells: ndarray::Array2::default((rows, cols)) }
}

/// Relies on `ndarray`'s `Index<[usize; 2]>`: the element at row `r`, column `c`.
#[verifier::external_body]
pub(crate) fn grid_get(g: &Grid, r: usize, c: usize) -> (v: Cell)
    requires
        r < grid_cells(*g).len(),
        c < grid_cells(*g)[r as int].len(),
    ensures
        v == grid_cells(*g)[r as int][c as int],
{
    g.cells[[r, c]]
}

/// Relies on `ndarray`'s `IndexMut<[usize; 2]>`: overwrites the element at row `r`,
/// column `c` and leaves every other element as it was.
#[verifier::external_body]
pub(crate) fn grid_set(g: &mut Grid, r: usize, c: usize, v: Cell)
    requires
        r < grid_cells(*old(g)).len(),
        c < grid_cells(*old(g))[r as int].len(),
    ensures
        grid_cells(*final(g)) == grid_cells(*old(g)).update(r as int, grid_cells(*old(g))[r as int].update(c as int, v)),
{
    g.cells[[r, c]] = v;
}

/// Relies on `ndarray::ArrayBase::dim`: the pattern `(rows, columns)` of a
/// two-dimensional array.
#[verifier::external_body]
pub(crate) fn grid_dim(g: &Grid) -> (d: (usize, usize))
    ensures
        d.0 == grid_cells(*g).len(),
        forall|r: int| 0 <= r < d.0 ==> #[trigger] grid_cells(*g)[r].len() == d.1,
{
    g.cells.dim()
}

/// A matrix with these rows, each of `cols` cells.
pub fn grid_from_rows(rows: &Vec<Vec<Cell>>, cols: usize) -> (g: Grid)
    requires
        rows@.len() <= MAX_CELLS,
        cols <= MAX_CELLS,
        rows@.len() * cols <= MAX_CELLS,
        forall|r: int| 0 <= r < rows@.len() ==> (#[trigger] rows@[r])@.len() == cols,
    ensures
        grid_cells(g) == rows@.map_values(|r: Vec<Cell>| r@),
{
    let mut g = grid_new(rows.len(), cols);
    let ghost target = rows@.map_values(|r: Vec<Cell>| r@);
    let mut r: usize = 0;
    while r < rows.len()
        invariant
            r <= rows@.len(),
            target == rows@.map_values(|x: Vec<Cell>| x@),
            forall|k: int| 0 <= k < rows@.len() ==> (#[trigger] rows@[k])@.len() == cols,
            grid_cells(g).len() == rows@.len(),
            forall|k: int| 0 <= k < r ==> #[trigger] grid_cells(g)[k] == target[k],
            forall|k: int| r <= k < rows@.len() ==> #[trigger] grid_cells(g)[k] == Seq::new(cols as nat, |_c: int| None::<(usize, usize)>),
        decreases rows@.len() - r,
    {
        let mut c: usize = 0;
        while c < cols
            invariant
                r < rows@.len(),
                c <= cols,
                target == rows@.map_values(|x: Vec<Cell>| x@),
                forall|k: int| 0 <= k < rows@.len() ==> (#[trigger] rows@[k])@.len() == cols,
                grid_cells(g).len() == rows@.len(),
                forall|k: int| 0 <= k < r ==> #[trigger] grid_cells(g)[k] == target[k],
                forall|k: int| r < k < rows@.len() ==> #[trigger] grid_cells(g)[k] == Seq::new(cols as nat, |_c: int| None::<(usize, usize)>),
                grid_cells(g)[r as int].len() == cols,
                forall|j: int| 0 <= j < c ==> #[trigger] grid_cells(g)[r as int][j] == target[r as int][j],
                forall|j: int| c <= j < cols ==> #[trigger] grid_cells(g)[r as int][j] == None::<(usize, usize)>,
            decreases cols - c,
        {
            grid_set(&mut g, r, c, rows[r][c]);
            c += 1;
        }
        assert(grid_cells(g)[r as int] =~= target[r as int]);
        r += 1;
    }
    assert(grid_cells(g) =~= target);
    g
}

} // verus!
