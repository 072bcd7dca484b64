//! A rectangular grid of cells, stored row by row.

use vstd::prelude::*;

verus! {

/// A grid of `height` rows and `width` columns. Row 0 is the northern edge,
/// column 0 the western one.
#[derive(Debug)]
pub struct Raster<T> {
    pub width: usize,
    pub height: usize,
    pub cells: Vec<T>,
}

/// A cell of a grid of the given width has one place in the row-major
/// order, and that place lies within the grid.
pub proof fn lemma_cell_place(width: int, height: int, row: int, col: int)
    requires
        0 <= row < height,
        0 <= col < width,
    ensures
        0 <= row * width + col < width * height,
        0 <= row * width,
        (row + 1) * width == row * width + width,
{
    assert(row * width >= 0) by (nonlinear_arith)
        requires
            row >= 0,
            width >= 0,
    ;
    assert(row * width + width <= width * height) by (nonlinear_arith)
        requires
            0 <= row < height,
            0 <= width,
    ;
    assert((row + 1) * width == row * width + width) by (nonlinear_arith);
}

/// Two cells with the same place in the row-major order are the same cell.
pub proof fn lemma_cell_place_unique(width: int, row: int, col: int, row2: int, col2: int)
    requires
        0 <= col < width,
        0 <= col2 < width,
        row * width + col == row2 * width + col2,
    ensures
        row == row2,
        col == col2,
{
    assert(row == row2) by (nonlinear_arith)
        requires
            0 <= col < width,
            0 <= col2 < width,
            row * width + col == row2 * width + col2,
    ;
    assert(col == col2) by (nonlinear_arith)
        requires
            row == row2,
            row * width + col == row2 * width + col2,
    ;
}

/// What a raster stands for: its shape, and its cells row by row.
pub struct Grid<T> {
    pub width: nat,
    pub height: nat,
    pub cells: Seq<T>,
}

impl<T> Grid<T> {
    /// The grid holds exactly one value for each cell.
    pub open spec fn wf(self) -> bool {
        self.cells.len() == self.width * self.height
    }

    /// Whether `(row, col)` is a cell of the grid.
    pub open spec fn has(self, row: int, col: int) -> bool {
        0 <= row < self.height && 0 <= col < self.width
    }

    /// Whether `(row, col)` lies at least `margin` cells away from every
    /// side of the grid.
    pub open spec fn inside(self, row: int, col: int, margin: int) -> bool {
        margin <= row < self.height - margin && margin <= col < self.width - margin
    }

    /// The value of the cell in row `row` and column `col`.
    pub open spec fn at(self, row: int, col: int) -> T {
        self.cells[row * self.width + col]
    }
}

impl<T> View for Raster<T> {
    type V = Grid<T>;

    open spec fn view(&self) -> Grid<T> {
        Grid { width: self.width as nat, height: self.height as nat, cells: self.cells@ }
    }
}

impl<T: Copy> Raster<T> {
    /// The grid holds exactly one value for each cell.
    pub open spec fn wf(&self) -> bool {
        self.cells@.len() == self.width * self.height
    }

    /// Whether `(row, col)` is a cell of the grid.
    pub open spec fn has(&self, row: int, col: int) -> bool {
        0 <= row < self.height && 0 <= col < self.width
    }

    /// Whether `(row, col)` lies at least `margin` cells away from every
    /// side of the grid.
    pub open spec fn inside(&self, row: int, col: int, margin: int) -> bool {
        margin <= row < self.height - margin && margin <= col < self.width - margin
    }

    /// The value of the cell in row `row` and column `col`.
    pub open spec fn at(&self, row: int, col: int) -> T {
        self.cells@[row * self.width + col]
    }

    /// Whether `other` has the same numbers of rows and columns.
    pub open spec fn same_shape<U>(&self, other: &Raster<U>) -> bool {
        self.width == other.width && self.height == other.height
    }

    /// A grid with `value` in every cell.
    pub fn filled(width: usize, height: usize, value: T) -> (grid: Raster<T>)
        requires
            width * height <= usize::MAX,
        ensures
            grid.wf(),
            grid.width == width,
            grid.height == height,
            forall|row: int, col: int| grid.has(row, col) ==> #[trigger] grid.at(row, col) == value,
    {
        let mut cells: Vec<T> = Vec::new();
        let total: usize = width * height;
        let mut k: usize = 0;
        while k < total
            invariant
                k <= total,
                cells@.len() == k,
                forall|m: int| 0 <= m < k ==> cells@[m] == value,
            decreases total - k,
        {
            cells.push(value);
            k += 1;
        }
        let grid = Raster { width, height, cells };
        proof {
            assert forall|row: int, col: int| grid.has(row, col) implies #[trigger] grid.at(
                row,
                col,
            ) == value by {
                lemma_cell_place(width as int, height as int, row, col);
            }
        }
        grid
    }

    /// Takes over a row-major list of cells; `None` unless the list holds
    /// `width * height` of them.
    pub fn from_cells(width: usize, height: usize, cells: Vec<T>) -> (grid: Option<Raster<T>>)
        ensures
            grid is Some <==> cells@.len() == width * height,
            grid is Some ==> grid->0.wf() && grid->0.width == width && grid->0.height == height
                && grid->0.cells@ == cells@,
    {
        assert(width * height <= 0xffff_ffff_ffff_ffff * 0xffff_ffff_ffff_ffff) by (nonlinear_arith)
            requires
                0 <= width <= 0xffff_ffff_ffff_ffff,
                0 <= height <= 0xffff_ffff_ffff_ffff,
        ;
        let total: u128 = (width as u128) * (height as u128);
        if cells.len() as u128 == total {
            Some(Raster { width, height, cells })
        } else {
            None
        }
    }

    /// Reads a cell.
    pub fn get(&self, row: usize, col: usize) -> (value: T)
        requires
            self.wf(),
            self.has(row as int, col as int),
        ensures
            value == self.at(row as int, col as int),
    {
        proof {
            lemma_cell_place(self.width as int, self.height as int, row as int, col as int);
            assert(self.cells@.len() == self.cells.len());
        }
        self.cells[row * self.width + col]
    }

    /// Reads a cell, or nothing where `(row, col)` is no cell of the grid.
    pub fn try_get(&self, row: usize, col: usize) -> (value: Option<T>)
        requires
            self.wf(),
        ensures
            value == if self.has(row as int, col as int) {
                Some(self.at(row as int, col as int))
            } else {
                None
            },
    {
        if row < self.height && col < self.width {
            Some(self.get(row, col))
        } else {
            None
        }
    }

    /// Writes a cell and leaves every other cell as it was.
    pub fn set(&mut self, row: usize, col: usize, value: T)
        requires
            old(self).wf(),
            old(self).has(row as int, col as int),
        ensures
            final(self).wf(),
            final(self).width == old(self).width,
            final(self).height == old(self).height,
            final(self).at(row as int, col as int) == value,
            forall|r: int, c: int|
                old(self).has(r, c) && !(r == row && c == col) ==> #[trigger] final(self).at(r, c)
                    == old(self).at(r, c),
    {
        proof {
            lemma_cell_place(self.width as int, self.height as int, row as int, col as int);
            assert(self.cells@.len() == self.cells.len());
        }
        let place: usize = row * self.width + col;
        self.cells[place] = value;
        proof {
            assert forall|r: int, c: int|
                old(self).has(r, c) && !(r == row && c == col) implies #[trigger] self.at(r, c)
                == old(self).at(r, c) by {
                lemma_cell_place(self.width as int, self.height as int, r, c);
                if r * self.width + c == row * self.width + col {
                    lemma_cell_place_unique(self.width as int, r, c, row as int, col as int);
                }
            }
        }
    }
}

} // verus!
