//! The classified pixel grid of a hole.

use crate::geometry::PointUsize;
use vstd::prelude::*;

verus! {

/// Classification of one pixel inside a hole.
#[derive(Clone, Copy, Debug, PartialEq, Eq, Structural)]
pub enum FilledHoleElement {
    /// Not classified: background.
    Blank,
    /// On a recovered curve.
    Structure,
    /// Flood-filled interior.
    Texture,
}

/// A row-major grid of classifications.
pub struct FilledHoleMatrix {
    pub width: usize,
    pub height: usize,
    pub elems: Vec<FilledHoleElement>,
}

/// The mathematical model of a grid: its size and its cells, row after row.
pub struct Grid {
    pub width: int,
    pub height: int,
    pub cells: Seq<FilledHoleElement>,
}

impl Grid {
    /// The grid holds exactly `width * height` cells.
    pub open spec fn wf(self) -> bool {
        &&& 0 <= self.width
        &&& 0 <= self.height
        &&& self.cells.len() == self.width * self.height
    }

    /// Column `x` of row `y` lies in the grid.
    pub open spec fn contains(self, x: int, y: int) -> bool {
        0 <= x < self.width && 0 <= y < self.height
    }

    /// The cell in column `x` of row `y`.
    pub open spec fn at(self, x: int, y: int) -> FilledHoleElement
        recommends
            self.contains(x, y),
    {
        self.cells[y * self.width + x]
    }

    /// The grid with the cell in column `x` of row `y` replaced.
    pub open spec fn with(self, x: int, y: int, elem: FilledHoleElement) -> Grid
        recommends
            self.contains(x, y),
    {
        Grid { cells: self.cells.update(y * self.width + x, elem), ..self }
    }

    /// The cells of row `y`.
    pub open spec fn row(self, y: int) -> Seq<FilledHoleElement>
        recommends
            0 <= y < self.height,
    {
        self.cells.subrange(y * self.width, y * self.width + self.width)
    }

    /// The cells of the rows above row `y`.
    pub open spec fn rows_before(self, y: int) -> Seq<FilledHoleElement>
        recommends
            0 <= y < self.height,
    {
        self.cells.subrange(0, y * self.width)
    }

    /// The cells of the rows below row `y`.
    pub open spec fn rows_after(self, y: int) -> Seq<FilledHoleElement>
        recommends
            0 <= y < self.height,
    {
        self.cells.subrange(y * self.width + self.width, self.cells.len() as int)
    }

    /// The blank grid of the given size.
    pub open spec fn blank(width: int, height: int) -> Grid {
        Grid {
            width,
            height,
            cells: Seq::new((width * height) as nat, |i: int| FilledHoleElement::Blank),
        }
    }

    /// The grid without column `col`: later columns move one to the left. A
    /// `col` beyond the last column removes the last one.
    pub open spec fn without_column(self, col: int) -> Grid {
        Grid {
            width: self.width - 1,
            height: self.height,
            cells: Seq::new(
                ((self.width - 1) * self.height) as nat,
                |k: int|
                    {
                        let x = k % (self.width - 1);
                        let y = k / (self.width - 1);
                        self.at(
                            if x < col {
                                x
                            } else {
                                x + 1
                            },
                            y,
                        )
                    },
            ),
        }
    }

    /// The grid without row `row`: later rows move one up. A `row` beyond the
    /// last row removes the last one.
    pub open spec fn without_row(self, row: int) -> Grid {
        Grid {
            width: self.width,
            height: self.height - 1,
            cells: Seq::new(
                (self.width * (self.height - 1)) as nat,
                |k: int|
                    {
                        let x = k % self.width;
                        let y = k / self.width;
                        self.at(
                            x,
                            if y < row {
                                y
                            } else {
                                y + 1
                            },
                        )
                    },
            ),
        }
    }
}

/// A cell of a grid of width `w` and height `h` has its place among the
/// `w * h` cells.
pub proof fn lemma_cell_index(w: int, h: int, x: int, y: int)
    requires
        0 <= x < w,
        0 <= y < h,
    ensures
        0 <= y * w,
        0 <= y * w + x < w * h,
        (y * w + x) % w == x,
        (y * w + x) / w == y,
{
    assert(0 <= y * w) by (nonlinear_arith)
        requires
            0 <= y,
            0 <= w,
    ;
    assert(y * w + w <= h * w) by (nonlinear_arith)
        requires
            y + 1 <= h,
            0 <= w,
    ;
    assert(h * w == w * h) by (nonlinear_arith);
    vstd::arithmetic::div_mod::lemma_fundamental_div_mod_converse(y * w + x, w, y, x);
}

/// The places of row `y` among the `w * h` cells.
pub proof fn lemma_row_range(w: int, h: int, y: int)
    requires
        0 <= w,
        0 <= y < h,
    ensures
        0 <= y * w,
        y * w + w <= w * h,
{
    assert(0 <= y * w) by (nonlinear_arith)
        requires
            0 <= y,
            0 <= w,
    ;
    assert(y * w + w <= w * h) by (nonlinear_arith)
        requires
            y + 1 <= h,
            0 <= w,
    ;
}

/// Each of the `w * h` places belongs to one cell.
pub proof fn lemma_index_cell(w: int, h: int, k: int)
    requires
        0 <= k < w * h,
        0 <= w,
        0 <= h,
    ensures
        0 <= k % w < w,
        0 <= k / w < h,
        (k / w) * w + k % w == k,
{
    assert(w > 0) by (nonlinear_arith)
        requires
            0 <= k < w * h,
            0 <= w,
    ;
    vstd::arithmetic::div_mod::lemma_fundamental_div_mod(k, w);
    vstd::arithmetic::div_mod::lemma_mod_bound(k, w);
    let q = k / w;
    assert(w * q == q * w) by (nonlinear_arith);
    assert(0 <= q) by (nonlinear_arith)
        requires
            0 <= k,
            w > 0,
            q == k / w,
    ;
    assert(q < h) by (nonlinear_arith)
        requires
            q * w + k % w == k,
            0 <= k % w,
            k < w * h,
            w > 0,
    ;
}

/// The grid without column `col` is one column narrower, and each of its
/// columns is the column of the same number before `col`, the next one from
/// `col` on.
pub proof fn lemma_without_column(grid: Grid, col: int, x: int, y: int)
    requires
        grid.wf(),
        grid.width > 0,
        0 <= x < grid.width - 1,
        0 <= y < grid.height,
    ensures
        grid.without_column(col).wf(),
        grid.without_column(col).width == grid.width - 1,
        grid.without_column(col).height == grid.height,
        grid.without_column(col).at(x, y) == grid.at(
            if x < col {
                x
            } else {
                x + 1
            },
            y,
        ),
{
    lemma_cell_index(grid.width - 1, grid.height, x, y);
}

/// The grid without row `row` is one row lower, and each of its rows is the
/// row of the same number before `row`, the next one from `row` on.
pub proof fn lemma_without_row(grid: Grid, row: int, x: int, y: int)
    requires
        grid.wf(),
        grid.height > 0,
        0 <= x < grid.width,
        0 <= y < grid.height - 1,
    ensures
        grid.without_row(row).wf(),
        grid.without_row(row).width == grid.width,
        grid.without_row(row).height == grid.height - 1,
        grid.without_row(row).at(x, y) == grid.at(
            x,
            if y < row {
                y
            } else {
                y + 1
            },
        ),
{
    lemma_cell_index(grid.width, grid.height - 1, x, y);
}

impl View for FilledHoleMatrix {
    type V = Grid;

    open spec fn view(&self) -> Grid {
        Grid { width: self.width as int, height: self.height as int, cells: self.elems@ }
    }
}

impl FilledHoleMatrix {
    /// The grid holds exactly `width * height` cells.
    pub open spec fn wf(&self) -> bool {
        self.elems.len() == self.width * self.height
    }

    /// A grid of the given size whose cells are all blank.
    pub fn new(width: usize, height: usize) -> (matrix: Self)
        requires
            width * height <= usize::MAX,
        ensures
            matrix.wf(),
            matrix@ == Grid::blank(width as int, height as int),
    {
        let n: usize = width * height;
        let mut elems: Vec<FilledHoleElement> = Vec::new();
        let mut i: usize = 0;
        while i < n
            invariant
                i <= n,
                elems@.len() == i,
                forall|k: int| 0 <= k < i ==> elems@[k] == FilledHoleElement::Blank,
            decreases n - i,
        {
            elems.push(FilledHoleElement::Blank);
            i += 1;
        }
        assert(elems@ =~= Grid::blank(width as int, height as int).cells);
        FilledHoleMatrix { width, height, elems }
    }

    /// The grid without column `col`.
    pub fn new_without_column(&self, col: usize) -> (matrix: Self)
        requires
            self.wf(),
            self.width > 0,
        ensures
            matrix.wf(),
            matrix@ == self@.without_column(col as int),
    {
        let width: usize = self.width - 1;
        let height: usize = self.height;
        let ghost target = self@.without_column(col as int);
        let mut elems: Vec<FilledHoleElement> = Vec::new();
        let mut i: usize = 0;
        while i < height
            invariant
                self.wf(),
                width == self.width - 1,
                height == self.height,
                target == self@.without_column(col as int),
                i <= height,
                elems@.len() == i * width,
                forall|k: int| 0 <= k < elems@.len() ==> elems@[k] == target.cells[k],
            decreases height - i,
        {
            let mut j: usize = 0;
            while j < width
                invariant
                    self.wf(),
                    width == self.width - 1,
                    height == self.height,
                    target == self@.without_column(col as int),
                    i < height,
                    j <= width,
                    elems@.len() == i * width + j,
                    forall|k: int| 0 <= k < elems@.len() ==> elems@[k] == target.cells[k],
                decreases width - j,
            {
                let src: usize = if j < col {
                    j
                } else {
                    j + 1
                };
                proof {
                    lemma_cell_index(self.width as int, self.height as int, src as int, i as int);
                    lemma_cell_index(width as int, height as int, j as int, i as int);
                }
                elems.push(self.elems[i * self.width + src]);
                j += 1;
            }
            assert((i + 1) * width == i * width + width) by (nonlinear_arith);
            i += 1;
        }
        assert(height * width == width * height) by (nonlinear_arith);
        assert(elems@ =~= target.cells);
        FilledHoleMatrix { width, height, elems }
    }

    /// The grid without row `row`.
    pub fn new_without_row(&self, row: usize) -> (matrix: Self)
        requires
            self.wf(),
            self.height > 0,
        ensures
            matrix.wf(),
            matrix@ == self@.without_row(row as int),
    {
        let width: usize = self.width;
        let height: usize = self.height - 1;
        let ghost target = self@.without_row(row as int);
        let mut elems: Vec<FilledHoleElement> = Vec::new();
        let mut i: usize = 0;
        while i < height
            invariant
                self.wf(),
                width == self.width,
                height == self.height - 1,
                target == self@.without_row(row as int),
                i <= height,
                elems@.len() == i * width,
                forall|k: int| 0 <= k < elems@.len() ==> elems@[k] == target.cells[k],
            decreases height - i,
        {
            let src: usize = if i < row {
                i
            } else {
                i + 1
            };
            let mut j: usize = 0;
            while j < width
                invariant
                    self.wf(),
                    width == self.width,
                    height == self.height - 1,
                    target == self@.without_row(row as int),
                    i < height,
                    src == if i < row {
                        i
                    } else {
                        (i + 1) as usize
                    },
                    j <= width,
                    elems@.len() == i * width + j,
                    forall|k: int| 0 <= k < elems@.len() ==> elems@[k] == target.cells[k],
                decreases width - j,
            {
                proof {
                    lemma_cell_index(self.width as int, self.height as int, j as int, src as int);
                    lemma_cell_index(width as int, height as int, j as int, i as int);
                }
                elems.push(self.elems[src * self.width + j]);
                j += 1;
            }
            assert((i + 1) * width == i * width + width) by (nonlinear_arith);
            i += 1;
        }
        assert(height * width == width * height) by (nonlinear_arith);
        assert(elems@ =~= target.cells);
        FilledHoleMatrix { width, height, elems }
    }

    /// The cells of row `index`.
    pub fn row(&self, index: usize) -> (row: &[FilledHoleElement])
        requires
            self.wf(),
            index < self.height,
        ensures
            row@ == self@.row(index as int),
            row@.len() == self.width,
            forall|x: int| 0 <= x < self.width ==> row@[x] == self@.at(x, index as int),
    {
        proof {
            lemma_row_range(self.width as int, self.height as int, index as int);
        }
        let start: usize = index * self.width;
        let end: usize = start + self.width;
        vstd::slice::slice_subrange(self.elems.as_slice(), start, end)
    }

    /// The cells of row `index`, to be written. The other rows stay as they
    /// are.
    pub fn row_mut(&mut self, index: usize) -> (row: &mut [FilledHoleElement])
        requires
            old(self).wf(),
            index < old(self).height,
        ensures
            row@ == old(self)@.row(index as int),
            final(self).width == old(self).width,
            final(self).height == old(self).height,
            final(self)@.cells == old(self)@.rows_before(index as int) + final(row)@
                + old(self)@.rows_after(index as int),
    {
        proof {
            lemma_row_range(self.width as int, self.height as int, index as int);
        }
        let ghost before = self@;
        let width: usize = self.width;
        let start: usize = index * width;
        let (head, rest) = self.elems.as_mut_slice().split_at_mut(start);
        let (row, tail) = rest.split_at_mut(width);
        proof {
            assert(row@ =~= before.row(index as int));
            assert(head@ =~= before.rows_before(index as int));
            assert(tail@ =~= before.rows_after(index as int));
        }
        row
    }

    /// The cell at `point`.
    pub fn get(&self, point: PointUsize) -> (elem: FilledHoleElement)
        requires
            self.wf(),
            self@.contains(point.x as int, point.y as int),
        ensures
            elem == self@.at(point.x as int, point.y as int),
    {
        proof {
            lemma_cell_index(
                self.width as int,
                self.height as int,
                point.x as int,
                point.y as int,
            );
        }
        self.elems[point.y * self.width + point.x]
    }

    /// Replaces the cell at `point`.
    pub fn set(&mut self, point: PointUsize, elem: FilledHoleElement)
        requires
            old(self).wf(),
            old(self)@.contains(point.x as int, point.y as int),
        ensures
            final(self).wf(),
            final(self)@ == old(self)@.with(point.x as int, point.y as int, elem),
    {
        proof {
            lemma_cell_index(
                self.width as int,
                self.height as int,
                point.x as int,
                point.y as int,
            );
        }
        let index: usize = point.y * self.width + point.x;
        self.elems[index] = elem;
    }
}

} // verus!
