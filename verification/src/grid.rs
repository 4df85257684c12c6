//! A rectangular grid of cells, stored row by row.
//!
//! The frame buffer is a grid of characters and the depth buffer a grid of
//! depths of the same shape.

use vstd::prelude::*;

verus! {

/// A grid of `height` rows of `width` cells each.
pub struct Grid<T> {
    width: usize,
    height: usize,
    cells: Vec<T>,
}

/// The place of the cell in row `row` and column `col` among the cells of a
/// grid that is `width` wide, counted row by row.
pub open spec fn cell_index(width: int, row: int, col: int) -> int {
    row * width + col
}

/// A cell inside a grid has its place inside the grid's cells, and its
/// place tells its row and column.
pub proof fn lemma_cell_index(width: int, height: int, row: int, col: int)
    requires
        0 <= row < height,
        0 <= col < width,
    ensures
        0 <= cell_index(width, row, col) < width * height,
        cell_index(width, row, col) / width == row,
        cell_index(width, row, col) % width == col,
{
    assert(0 <= row * width + col < width * height && (row * width + col) / width == row && (row
        * width + col) % width == col) by (nonlinear_arith)
        requires
            0 <= row < height,
            0 <= col < width,
    ;
}

impl<T: Copy> View for Grid<T> {
    type V = Seq<T>;

    /// The cells, row by row.
    closed spec fn view(&self) -> Seq<T> {
        self.cells@
    }
}

impl<T: Copy> Grid<T> {
    /// The number of columns.
    pub closed spec fn cols(&self) -> nat {
        self.width as nat
    }

    /// The number of rows.
    pub closed spec fn rows(&self) -> nat {
        self.height as nat
    }

    /// The grid holds one cell for each pair of a row and a column.
    pub closed spec fn wf(&self) -> bool {
        self.cells@.len() == self.width * self.height <= usize::MAX
    }

    /// The cell in row `row` and column `col`.
    pub open spec fn at(&self, row: int, col: int) -> T {
        self@[cell_index(self.cols() as int, row, col)]
    }

    /// Two grids have the same shape.
    pub open spec fn same_shape<U: Copy>(&self, other: &Grid<U>) -> bool {
        self.cols() == other.cols() && self.rows() == other.rows()
    }

    /// A well-formed grid has as many cells as its shape says.
    pub proof fn lemma_len(&self)
        requires
            self.wf(),
        ensures
            self@.len() == self.cols() * self.rows(),
    {
    }

    /// Makes a grid whose cells all hold `fill`.
    pub fn new(width: usize, height: usize, fill: T) -> (g: Grid<T>)
        requires
            width * height <= usize::MAX,
        ensures
            g.wf(),
            g.cols() == width,
            g.rows() == height,
            g@ == Seq::new((width * height) as nat, |i: int| fill),
    {
        let n: usize = width * height;
        let mut cells: Vec<T> = Vec::new();
        let mut i: usize = 0;
        while i < n
            invariant
                i <= n,
                cells@.len() == i,
                forall|j: int| 0 <= j < i ==> cells@[j] == fill,
            decreases n - i,
        {
            cells.push(fill);
            i = i + 1;
        }
        assert(cells@ =~= Seq::new((width * height) as nat, |i: int| fill));
        Grid { width, height, cells }
    }

    /// Returns the number of columns.
    pub fn width(&self) -> (w: usize)
        ensures
            w == self.cols(),
    {
        self.width
    }

    /// Returns the number of rows.
    pub fn height(&self) -> (h: usize)
        ensures
            h == self.rows(),
    {
        self.height
    }

    /// Returns the cell in row `row` and column `col`.
    pub fn get(&self, row: usize, col: usize) -> (v: T)
        requires
            self.wf(),
            row < self.rows(),
            col < self.cols(),
        ensures
            v == self.at(row as int, col as int),
    {
        proof {
            lemma_cell_index(self.width as int, self.height as int, row as int, col as int);
        }
        self.cells[row * self.width + col]
    }

    /// Stores `v` in the cell in row `row` and column `col`.
    pub fn set(&mut self, row: usize, col: usize, v: T)
        requires
            old(self).wf(),
            row < old(self).rows(),
            col < old(self).cols(),
        ensures
            final(self).wf(),
            final(self).cols() == old(self).cols(),
            final(self).rows() == old(self).rows(),
            final(self)@ == old(self)@.update(
                cell_index(old(self).cols() as int, row as int, col as int),
                v,
            ),
    {
        proof {
            lemma_cell_index(self.width as int, self.height as int, row as int, col as int);
        }
        let i: usize = row * self.width + col;
        self.cells[i] = v;
    }

    /// Stores `v` in every cell.
    pub fn fill(&mut self, v: T)
        requires
            old(self).wf(),
        ensures
            final(self).wf(),
            final(self).cols() == old(self).cols(),
            final(self).rows() == old(self).rows(),
            final(self)@ == Seq::new(old(self)@.len(), |i: int| v),
    {
        let n: usize = self.cells.len();
        let mut i: usize = 0;
        while i < n
            invariant
                i <= n,
                n == self.cells@.len(),
                self.cells@.len() == old(self).cells@.len(),
                self.width == old(self).width,
                self.height == old(self).height,
                forall|j: int| 0 <= j < i ==> self.cells@[j] == v,
            decreases n - i,
        {
            self.cells[i] = v;
            i = i + 1;
        }
        assert(self.cells@ =~= Seq::new(old(self)@.len(), |i: int| v));
    }

    /// Makes this grid's cells equal to those of `source`.
    pub fn copy_from(&mut self, source: &Grid<T>)
        requires
            old(self).wf(),
            source.wf(),
            old(self).same_shape(source),
        ensures
            final(self).wf(),
            final(self).cols() == old(self).cols(),
            final(self).rows() == old(self).rows(),
            final(self)@ == source@,
    {
        let n: usize = self.cells.len();
        let mut i: usize = 0;
        while i < n
            invariant
                i <= n,
                n == self.cells@.len(),
                n == source.cells@.len(),
                self.width == old(self).width,
                self.height == old(self).height,
                forall|j: int| 0 <= j < i ==> self.cells@[j] == source.cells@[j],
            decreases n - i,
        {
            self.cells[i] = source.cells[i];
            i = i + 1;
        }
        assert(self.cells@ =~= source.cells@);
    }
}

} // verus!
