//! Stamping recovered curves onto the grid as structure.

use crate::filler::HoleFiller;
use crate::geometry::{PointI32, PointUsize};
use crate::grid::{lemma_cell_index, lemma_index_cell, FilledHoleElement, FilledHoleMatrix, Grid};
use vstd::prelude::*;

verus! {

/// One element of a compound path, as the rasterizer reads it.
pub enum CompoundPathElement {
    /// A polyline with integer vertices, in the coordinates of the image.
    IntegerPolyline(Vec<PointI32>),
    /// A polyline with real vertices: the cell of each vertex, that is the
    /// vertex in the coordinates of the hole with both coordinates rounded
    /// down.
    RealPolyline(Vec<PointUsize>),
    /// A spline of cubic Bezier segments: for each segment the cells of its
    /// samples, taken in the coordinates of the hole at evenly spaced
    /// parameters and rounded down. A sample may lie beyond the grid.
    Spline(Vec<Vec<PointUsize>>),
}

/// A shape made of polylines and splines.
pub struct CompoundPath {
    pub paths: Vec<CompoundPathElement>,
}

/// The cells that are members of `cells`.
pub open spec fn cells_of(cells: Seq<(int, int)>) -> Set<(int, int)> {
    Set::new(|c: (int, int)| cells.contains(c))
}

/// The cells that are members of one of `sets`.
pub open spec fn union_of(sets: Seq<Set<(int, int)>>) -> Set<(int, int)> {
    Set::new(|c: (int, int)| exists|i: int| 0 <= i < sets.len() && (#[trigger] sets[i]).contains(c))
}

/// A coordinate brought back into a side of length `side`.
pub open spec fn clamped(coordinate: int, side: int) -> int {
    if coordinate < side - 1 {
        coordinate
    } else {
        side - 1
    }
}

/// The cells of the vertices of an integer polyline, in the coordinates of the
/// hole whose top-left corner is `origin`.
pub open spec fn polyline_marks(vertices: Seq<PointI32>, origin: PointI32) -> Set<(int, int)> {
    cells_of(vertices.map_values(|p: PointI32| (p.x - origin.x, p.y - origin.y)))
}

/// The cells of the vertices of a real polyline.
pub open spec fn cell_marks(cells: Seq<PointUsize>) -> Set<(int, int)> {
    cells_of(cells.map_values(|p: PointUsize| (p.x as int, p.y as int)))
}

/// The cells of the samples of one Bezier segment, each brought back into a
/// grid of the given size.
pub open spec fn bezier_marks(samples: Seq<PointUsize>, width: int, height: int) -> Set<(int, int)> {
    cells_of(
        samples.map_values(|p: PointUsize| (clamped(p.x as int, width), clamped(p.y as int, height))),
    )
}

/// The cells of all segments of a spline.
pub open spec fn spline_marks(segments: Seq<Vec<PointUsize>>, width: int, height: int) -> Set<
    (int, int),
> {
    union_of(segments.map_values(|s: Vec<PointUsize>| bezier_marks(s@, width, height)))
}

/// The cells that one path element marks.
pub open spec fn element_marks(
    element: CompoundPathElement,
    origin: PointI32,
    width: int,
    height: int,
) -> Set<(int, int)> {
    match element {
        CompoundPathElement::IntegerPolyline(vertices) => polyline_marks(vertices@, origin),
        CompoundPathElement::RealPolyline(cells) => cell_marks(cells@),
        CompoundPathElement::Spline(segments) => spline_marks(segments@, width, height),
    }
}

/// The cells that the elements of a compound path mark.
pub open spec fn path_marks(
    elements: Seq<CompoundPathElement>,
    origin: PointI32,
    width: int,
    height: int,
) -> Set<(int, int)> {
    union_of(elements.map_values(|e: CompoundPathElement| element_marks(e, origin, width, height)))
}

/// The cells that a list of compound paths marks.
pub open spec fn curve_marks(
    curves: Seq<CompoundPath>,
    origin: PointI32,
    width: int,
    height: int,
) -> Set<(int, int)> {
    union_of(curves.map_values(|c: CompoundPath| path_marks(c.paths@, origin, width, height)))
}

impl Grid {
    /// Every cell of `marks` lies in the grid.
    pub open spec fn holds(self, marks: Set<(int, int)>) -> bool {
        forall|c: (int, int)| marks.contains(c) ==> self.contains(c.0, c.1)
    }

    /// The grid with every cell of `marks` turned into structure.
    pub open spec fn stamped(self, marks: Set<(int, int)>) -> Grid {
        Grid {
            cells: Seq::new(
                self.cells.len(),
                |k: int|
                    if marks.contains((k % self.width, k / self.width)) {
                        FilledHoleElement::Structure
                    } else {
                        self.cells[k]
                    },
            ),
            ..self
        }
    }

    /// The grid after the rasterization of `curves`, for a hole whose top-left
    /// corner is `origin`: every vertex of a polyline and every sample of a
    /// spline is structure, the samples beyond the grid at its nearest edge.
    pub open spec fn rasterized(self, curves: Seq<CompoundPath>, origin: PointI32) -> Grid {
        self.stamped(curve_marks(curves, origin, self.width, self.height))
    }
}

/// Stamping no cell changes nothing.
pub proof fn lemma_stamped_none(grid: Grid)
    ensures
        grid.stamped(Set::empty()) == grid,
{
    assert(grid.stamped(Set::empty()).cells =~= grid.cells);
}

/// The cells of the stamped grid, by column and row: a marked cell is
/// structure, every other cell is as before.
pub proof fn lemma_stamped_cell(grid: Grid, marks: Set<(int, int)>, x: int, y: int)
    requires
        grid.wf(),
        grid.contains(x, y),
    ensures
        grid.stamped(marks).wf(),
        grid.stamped(marks).width == grid.width,
        grid.stamped(marks).height == grid.height,
        grid.stamped(marks).at(x, y) == if marks.contains((x, y)) {
            FilledHoleElement::Structure
        } else {
            grid.at(x, y)
        },
{
    lemma_cell_index(grid.width, grid.height, x, y);
}

/// Stamping one more cell.
pub proof fn lemma_stamped_insert(grid: Grid, marks: Set<(int, int)>, x: int, y: int)
    requires
        grid.wf(),
        grid.contains(x, y),
    ensures
        grid.stamped(marks).with(x, y, FilledHoleElement::Structure) == grid.stamped(
            marks.insert((x, y)),
        ),
{
    let left = grid.stamped(marks).with(x, y, FilledHoleElement::Structure);
    let right = grid.stamped(marks.insert((x, y)));
    lemma_cell_index(grid.width, grid.height, x, y);
    assert forall|k: int| 0 <= k < grid.cells.len() implies left.cells[k] == right.cells[k] by {
        lemma_index_cell(grid.width, grid.height, k);
    }
    assert(left.cells =~= right.cells);
}

/// Stamping two sets of cells in turn is stamping their union.
pub proof fn lemma_stamped_union(grid: Grid, first: Set<(int, int)>, second: Set<(int, int)>)
    ensures
        grid.stamped(first).stamped(second) == grid.stamped(first.union(second)),
{
    assert(grid.stamped(first).stamped(second).cells =~= grid.stamped(first.union(second)).cells);
}

/// The members of a sequence with one more element.
pub proof fn lemma_cells_of_push(cells: Seq<(int, int)>, cell: (int, int))
    ensures
        cells_of(cells.push(cell)) == cells_of(cells).insert(cell),
{
    let longer = cells.push(cell);
    assert forall|c: (int, int)| cells_of(longer).contains(c) <==> cells_of(cells).insert(
        cell,
    ).contains(c) by {
        if cells.contains(c) {
            let i = choose|i: int| 0 <= i < cells.len() && cells[i] == c;
            assert(longer[i] == c);
        }
        if c == cell {
            assert(longer[cells.len() as int] == c);
        }
        if longer.contains(c) {
            let i = choose|i: int| 0 <= i < longer.len() && longer[i] == c;
            if i < cells.len() {
                assert(cells[i] == c);
            }
        }
    }
    assert(cells_of(longer) =~= cells_of(cells).insert(cell));
}

/// The union of a sequence of sets with one more set.
pub proof fn lemma_union_of_push(sets: Seq<Set<(int, int)>>, set: Set<(int, int)>)
    ensures
        union_of(sets.push(set)) == union_of(sets).union(set),
{
    let longer = sets.push(set);
    assert forall|c: (int, int)| union_of(longer).contains(c) <==> union_of(sets).union(
        set,
    ).contains(c) by {
        if union_of(sets).contains(c) {
            let i = choose|i: int| 0 <= i < sets.len() && (#[trigger] sets[i]).contains(c);
            assert(longer[i].contains(c));
        }
        if set.contains(c) {
            assert(longer[sets.len() as int].contains(c));
        }
        if union_of(longer).contains(c) {
            let i = choose|i: int| 0 <= i < longer.len() && (#[trigger] longer[i]).contains(c);
            if i < sets.len() {
                assert(sets[i].contains(c));
            }
        }
    }
    assert(union_of(longer) =~= union_of(sets).union(set));
}

/// A set of the sequence lies within the union.
pub proof fn lemma_union_of_member(sets: Seq<Set<(int, int)>>, i: int)
    requires
        0 <= i < sets.len(),
    ensures
        sets[i].subset_of(union_of(sets)),
{
}

/// Every cell of `marks` lies in a grid of the given size.
pub open spec fn fit(marks: Set<(int, int)>, width: int, height: int) -> bool {
    Grid::blank(width, height).holds(marks)
}

/// The members of a sequence fit exactly if each of them lies in the grid.
pub proof fn lemma_fit_cells(cells: Seq<(int, int)>, width: int, height: int)
    ensures
        fit(cells_of(cells), width, height) <==> forall|k: int|
            0 <= k < cells.len() ==> 0 <= (#[trigger] cells[k]).0 < width && 0 <= cells[k].1
                < height,
{
    if fit(cells_of(cells), width, height) {
        assert forall|k: int| 0 <= k < cells.len() implies 0 <= (#[trigger] cells[k]).0 < width
            && 0 <= cells[k].1 < height by {
            assert(cells.contains(cells[k]));
            assert(cells_of(cells).contains(cells[k]));
        }
    }
}

/// A union fits exactly if each of its sets fits.
pub proof fn lemma_fit_union(sets: Seq<Set<(int, int)>>, width: int, height: int)
    ensures
        fit(union_of(sets), width, height) <==> forall|i: int|
            0 <= i < sets.len() ==> fit(#[trigger] sets[i], width, height),
{
    if fit(union_of(sets), width, height) {
        assert forall|i: int| 0 <= i < sets.len() implies fit(
            #[trigger] sets[i],
            width,
            height,
        ) by {
            assert forall|c: (int, int)| sets[i].contains(c) implies Grid::blank(
                width,
                height,
            ).contains(c.0, c.1) by {
                assert(union_of(sets).contains(c));
            }
        }
    }
}

impl HoleFiller {
    /// Whether every vertex of an integer polyline lies in the grid of a hole
    /// whose top-left corner is `origin`.
    fn polyline_fits(vertices: &Vec<PointI32>, origin: PointI32, width: usize, height: usize) -> (ok:
        bool)
        ensures
            ok == fit(polyline_marks(vertices@, origin), width as int, height as int),
    {
        let ghost marks = vertices@.map_values(|p: PointI32| (p.x - origin.x, p.y - origin.y));
        proof {
            lemma_fit_cells(marks, width as int, height as int);
        }
        let mut i: usize = 0;
        while i < vertices.len()
            invariant
                i <= vertices@.len(),
                marks == vertices@.map_values(|p: PointI32| (p.x - origin.x, p.y - origin.y)),
                forall|k: int|
                    0 <= k < i ==> 0 <= (#[trigger] marks[k]).0 < width && 0 <= marks[k].1
                        < height,
            decreases vertices@.len() - i,
        {
            let x: i64 = vertices[i].x as i64 - origin.x as i64;
            let y: i64 = vertices[i].y as i64 - origin.y as i64;
            assert(marks[i as int] == (x as int, y as int));
            if x < 0 || y < 0 || x as u64 >= width as u64 || y as u64 >= height as u64 {
                proof {
                    lemma_fit_cells(marks, width as int, height as int);
                }
                return false;
            }
            i += 1;
        }
        true
    }

    /// Whether every cell of a list lies in the grid.
    fn cells_fit(cells: &Vec<PointUsize>, width: usize, height: usize) -> (ok: bool)
        ensures
            ok == fit(cell_marks(cells@), width as int, height as int),
    {
        let ghost marks = cells@.map_values(|p: PointUsize| (p.x as int, p.y as int));
        proof {
            lemma_fit_cells(marks, width as int, height as int);
        }
        let mut i: usize = 0;
        while i < cells.len()
            invariant
                i <= cells@.len(),
                marks == cells@.map_values(|p: PointUsize| (p.x as int, p.y as int)),
                forall|k: int|
                    0 <= k < i ==> 0 <= (#[trigger] marks[k]).0 < width && 0 <= marks[k].1
                        < height,
            decreases cells@.len() - i,
        {
            assert(marks[i as int] == (cells@[i as int].x as int, cells@[i as int].y as int));
            if cells[i].x >= width || cells[i].y >= height {
                proof {
                    lemma_fit_cells(marks, width as int, height as int);
                }
                return false;
            }
            i += 1;
        }
        true
    }

    /// Whether the samples of a spline can be brought back into the grid:
    /// they can unless the grid is empty and there is a sample.
    fn spline_fits(segments: &Vec<Vec<PointUsize>>, width: usize, height: usize) -> (ok: bool)
        ensures
            ok == fit(spline_marks(segments@, width as int, height as int), width as int, height as int),
    {
        let ghost sets = segments@.map_values(
            |s: Vec<PointUsize>| bezier_marks(s@, width as int, height as int),
        );
        proof {
            lemma_fit_union(sets, width as int, height as int);
        }
        let mut i: usize = 0;
        while i < segments.len()
            invariant
                i <= segments@.len(),
                sets == segments@.map_values(
                    |s: Vec<PointUsize>| bezier_marks(s@, width as int, height as int),
                ),
                forall|k: int| 0 <= k < i ==> fit(#[trigger] sets[k], width as int, height as int),
            decreases segments@.len() - i,
        {
            let ghost marks = segments@[i as int]@.map_values(
                |p: PointUsize|
                    (clamped(p.x as int, width as int), clamped(p.y as int, height as int)),
            );
            proof {
                lemma_fit_cells(marks, width as int, height as int);
                assert(sets[i as int] == cells_of(marks));
            }
            if segments[i].len() > 0 && (width == 0 || height == 0) {
                assert(!(0 <= marks[0].0 < width && 0 <= marks[0].1 < height));
                proof {
                    lemma_fit_union(sets, width as int, height as int);
                }
                return false;
            }
            i += 1;
        }
        true
    }

    /// Whether every cell that a path element marks lies in the grid.
    fn element_fits(
        element: &CompoundPathElement,
        origin: PointI32,
        width: usize,
        height: usize,
    ) -> (ok: bool)
        ensures
            ok == fit(
                element_marks(*element, origin, width as int, height as int),
                width as int,
                height as int,
            ),
    {
        match element {
            CompoundPathElement::IntegerPolyline(vertices) => Self::polyline_fits(
                vertices,
                origin,
                width,
                height,
            ),
            CompoundPathElement::RealPolyline(cells) => Self::cells_fit(cells, width, height),
            CompoundPathElement::Spline(segments) => Self::spline_fits(segments, width, height),
        }
    }

    /// Whether every cell that a compound path marks lies in the grid.
    fn path_fits(path: &CompoundPath, origin: PointI32, width: usize, height: usize) -> (ok: bool)
        ensures
            ok == fit(
                path_marks(path.paths@, origin, width as int, height as int),
                width as int,
                height as int,
            ),
    {
        let ghost sets = path.paths@.map_values(
            |e: CompoundPathElement| element_marks(e, origin, width as int, height as int),
        );
        proof {
            lemma_fit_union(sets, width as int, height as int);
        }
        let mut i: usize = 0;
        while i < path.paths.len()
            invariant
                i <= path.paths@.len(),
                sets == path.paths@.map_values(
                    |e: CompoundPathElement| element_marks(e, origin, width as int, height as int),
                ),
                forall|k: int| 0 <= k < i ==> fit(#[trigger] sets[k], width as int, height as int),
            decreases path.paths@.len() - i,
        {
            assert(sets[i as int] == element_marks(
                path.paths@[i as int],
                origin,
                width as int,
                height as int,
            ));
            if !Self::element_fits(&path.paths[i], origin, width, height) {
                proof {
                    lemma_fit_union(sets, width as int, height as int);
                }
                return false;
            }
            i += 1;
        }
        true
    }

    /// Whether every cell that the curves mark lies in a grid of the given
    /// size, for a hole whose top-left corner is `origin`.
    pub fn curves_fit(curves: &Vec<CompoundPath>, origin: PointI32, width: usize, height: usize) -> (ok:
        bool)
        ensures
            ok == fit(
                curve_marks(curves@, origin, width as int, height as int),
                width as int,
                height as int,
            ),
    {
        let ghost sets = curves@.map_values(
            |c: CompoundPath| path_marks(c.paths@, origin, width as int, height as int),
        );
        proof {
            lemma_fit_union(sets, width as int, height as int);
        }
        let mut i: usize = 0;
        while i < curves.len()
            invariant
                i <= curves@.len(),
                sets == curves@.map_values(
                    |c: CompoundPath| path_marks(c.paths@, origin, width as int, height as int),
                ),
                forall|k: int| 0 <= k < i ==> fit(#[trigger] sets[k], width as int, height as int),
            decreases curves@.len() - i,
        {
            assert(sets[i as int] == path_marks(
                curves@[i as int].paths@,
                origin,
                width as int,
                height as int,
            ));
            if !Self::path_fits(&curves[i], origin, width, height) {
                proof {
                    lemma_fit_union(sets, width as int, height as int);
                }
                return false;
            }
            i += 1;
        }
        true
    }


    /// Turns the cells of a list into structure.
    fn stamp_cells(
        matrix: &mut FilledHoleMatrix,
        cells: &Vec<PointUsize>,
        Ghost(marks): Ghost<Seq<(int, int)>>,
        clamp: bool,
    )
        requires
            old(matrix).wf(),
            marks.len() == cells@.len(),
            forall|i: int|
                0 <= i < cells@.len() ==> #[trigger] marks[i] == if clamp {
                    (
                        clamped(cells@[i].x as int, old(matrix).width as int),
                        clamped(cells@[i].y as int, old(matrix).height as int),
                    )
                } else {
                    (cells@[i].x as int, cells@[i].y as int)
                },
            old(matrix)@.holds(cells_of(marks)),
        ensures
            final(matrix).wf(),
            final(matrix)@ == old(matrix)@.stamped(cells_of(marks)),
    {
        let ghost orig = matrix@;
        proof {
            lemma_stamped_none(orig);
            assert(marks.take(0) =~= Seq::empty());
            assert(cells_of(marks.take(0)) =~= Set::empty());
        }
        let mut i: usize = 0;
        while i < cells.len()
            invariant
                i <= cells@.len(),
                marks.len() == cells@.len(),
                matrix.wf(),
                orig.wf(),
                matrix.width == orig.width,
                matrix.height == orig.height,
                forall|i: int|
                    0 <= i < cells@.len() ==> #[trigger] marks[i] == if clamp {
                        (
                            clamped(cells@[i].x as int, orig.width),
                            clamped(cells@[i].y as int, orig.height),
                        )
                    } else {
                        (cells@[i].x as int, cells@[i].y as int)
                    },
                orig.holds(cells_of(marks)),
                matrix@ == orig.stamped(cells_of(marks.take(i as int))),
            decreases cells@.len() - i,
        {
            let cell = cells[i];
            proof {
                assert(marks.contains(marks[i as int]));
                assert(cells_of(marks).contains(marks[i as int]));
            }
            let x: usize = if clamp && cell.x >= matrix.width - 1 {
                matrix.width - 1
            } else {
                cell.x
            };
            let y: usize = if clamp && cell.y >= matrix.height - 1 {
                matrix.height - 1
            } else {
                cell.y
            };
            matrix.set(PointUsize::new(x, y), FilledHoleElement::Structure);
            proof {
                lemma_stamped_insert(orig, cells_of(marks.take(i as int)), x as int, y as int);
                lemma_cells_of_push(marks.take(i as int), marks[i as int]);
                assert(marks.take(i + 1) =~= marks.take(i as int).push(marks[i as int]));
            }
            i += 1;
        }
        assert(marks.take(cells@.len() as int) =~= marks);
    }

    /// Turns the vertices of an integer polyline into structure.
    fn rasterize_polyline(matrix: &mut FilledHoleMatrix, vertices: &Vec<PointI32>, origin: PointI32)
        requires
            old(matrix).wf(),
            old(matrix)@.holds(polyline_marks(vertices@, origin)),
        ensures
            final(matrix).wf(),
            final(matrix)@ == old(matrix)@.stamped(polyline_marks(vertices@, origin)),
    {
        let ghost orig = matrix@;
        let ghost marks = vertices@.map_values(|p: PointI32| (p.x - origin.x, p.y - origin.y));
        proof {
            lemma_stamped_none(orig);
            assert(marks.take(0) =~= Seq::empty());
            assert(cells_of(marks.take(0)) =~= Set::empty());
        }
        let mut i: usize = 0;
        while i < vertices.len()
            invariant
                i <= vertices@.len(),
                matrix.wf(),
                orig.wf(),
                matrix.width == orig.width,
                matrix.height == orig.height,
                marks == vertices@.map_values(|p: PointI32| (p.x - origin.x, p.y - origin.y)),
                orig.holds(cells_of(marks)),
                matrix@ == orig.stamped(cells_of(marks.take(i as int))),
            decreases vertices@.len() - i,
        {
            let vertex = vertices[i];
            proof {
                assert(marks[i as int] == (vertex.x - origin.x, vertex.y - origin.y));
                assert(marks.contains(marks[i as int]));
                assert(cells_of(marks).contains(marks[i as int]));
            }
            let x: i64 = vertex.x as i64 - origin.x as i64;
            let y: i64 = vertex.y as i64 - origin.y as i64;
            matrix.set(PointUsize::new(x as usize, y as usize), FilledHoleElement::Structure);
            proof {
                lemma_stamped_insert(orig, cells_of(marks.take(i as int)), x as int, y as int);
                lemma_cells_of_push(marks.take(i as int), marks[i as int]);
                assert(marks.take(i + 1) =~= marks.take(i as int).push(marks[i as int]));
            }
            i += 1;
        }
        assert(marks.take(vertices@.len() as int) =~= marks);
    }

    /// Turns the samples of one Bezier segment into structure; a sample beyond
    /// the grid marks the nearest cell of the last column or row.
    pub fn rasterize_bezier_curve(matrix: &mut FilledHoleMatrix, samples: &Vec<PointUsize>)
        requires
            old(matrix).wf(),
            samples@.len() > 0 ==> old(matrix).width > 0 && old(matrix).height > 0,
        ensures
            final(matrix).wf(),
            final(matrix)@ == old(matrix)@.stamped(
                bezier_marks(samples@, old(matrix).width as int, old(matrix).height as int),
            ),
    {
        let ghost width = matrix.width as int;
        let ghost height = matrix.height as int;
        let ghost marks = samples@.map_values(
            |p: PointUsize| (clamped(p.x as int, width), clamped(p.y as int, height)),
        );
        proof {
            assert forall|c: (int, int)| cells_of(marks).contains(c) implies matrix@.contains(
                c.0,
                c.1,
            ) by {
                let i = choose|i: int| 0 <= i < marks.len() && marks[i] == c;
            }
        }
        Self::stamp_cells(matrix, samples, Ghost(marks), true);
    }

    /// Turns the cells of the vertices of a real polyline into structure.
    fn rasterize_cells(matrix: &mut FilledHoleMatrix, cells: &Vec<PointUsize>)
        requires
            old(matrix).wf(),
            old(matrix)@.holds(cell_marks(cells@)),
        ensures
            final(matrix).wf(),
            final(matrix)@ == old(matrix)@.stamped(cell_marks(cells@)),
    {
        let ghost marks = cells@.map_values(|p: PointUsize| (p.x as int, p.y as int));
        Self::stamp_cells(matrix, cells, Ghost(marks), false);
    }

    /// Turns the samples of every segment of a spline into structure.
    fn rasterize_spline(matrix: &mut FilledHoleMatrix, segments: &Vec<Vec<PointUsize>>)
        requires
            old(matrix).wf(),
            old(matrix)@.holds(
                spline_marks(segments@, old(matrix).width as int, old(matrix).height as int),
            ),
        ensures
            final(matrix).wf(),
            final(matrix)@ == old(matrix)@.stamped(
                spline_marks(segments@, old(matrix).width as int, old(matrix).height as int),
            ),
    {
        let ghost orig = matrix@;
        let ghost sets = segments@.map_values(
            |s: Vec<PointUsize>| bezier_marks(s@, orig.width, orig.height),
        );
        proof {
            lemma_stamped_none(orig);
            assert(sets.take(0) =~= Seq::empty());
            assert(union_of(sets.take(0)) =~= Set::empty());
        }
        let mut i: usize = 0;
        while i < segments.len()
            invariant
                i <= segments@.len(),
                matrix.wf(),
                orig.wf(),
                matrix.width == orig.width,
                matrix.height == orig.height,
                sets == segments@.map_values(
                    |s: Vec<PointUsize>| bezier_marks(s@, orig.width, orig.height),
                ),
                orig.holds(union_of(sets)),
                matrix@ == orig.stamped(union_of(sets.take(i as int))),
            decreases segments@.len() - i,
        {
            proof {
                lemma_union_of_member(sets, i as int);
                if segments@[i as int]@.len() > 0 {
                    let first = segments@[i as int]@[0];
                    let marks = segments@[i as int]@.map_values(
                        |p: PointUsize|
                            (clamped(p.x as int, orig.width), clamped(p.y as int, orig.height)),
                    );
                    assert(marks.contains(marks[0]));
                    assert(sets[i as int].contains(marks[0]));
                    assert(union_of(sets).contains(marks[0]));
                }
            }
            Self::rasterize_bezier_curve(matrix, &segments[i]);
            proof {
                lemma_stamped_union(orig, union_of(sets.take(i as int)), sets[i as int]);
                lemma_union_of_push(sets.take(i as int), sets[i as int]);
                assert(sets.take(i + 1) =~= sets.take(i as int).push(sets[i as int]));
            }
            i += 1;
        }
        assert(sets.take(segments@.len() as int) =~= sets);
    }

    /// Turns the cells that one path element marks into structure.
    fn rasterize_element(
        matrix: &mut FilledHoleMatrix,
        element: &CompoundPathElement,
        origin: PointI32,
    )
        requires
            old(matrix).wf(),
            old(matrix)@.holds(
                element_marks(
                    *element,
                    origin,
                    old(matrix).width as int,
                    old(matrix).height as int,
                ),
            ),
        ensures
            final(matrix).wf(),
            final(matrix)@ == old(matrix)@.stamped(
                element_marks(
                    *element,
                    origin,
                    old(matrix).width as int,
                    old(matrix).height as int,
                ),
            ),
    {
        match element {
            CompoundPathElement::IntegerPolyline(vertices) => {
                Self::rasterize_polyline(matrix, vertices, origin);
            },
            CompoundPathElement::RealPolyline(cells) => {
                Self::rasterize_cells(matrix, cells);
            },
            CompoundPathElement::Spline(segments) => {
                Self::rasterize_spline(matrix, segments);
            },
        }
    }

    /// Turns the cells that one compound path marks into structure.
    fn rasterize_path(matrix: &mut FilledHoleMatrix, path: &CompoundPath, origin: PointI32)
        requires
            old(matrix).wf(),
            old(matrix)@.holds(
                path_marks(
                    path.paths@,
                    origin,
                    old(matrix).width as int,
                    old(matrix).height as int,
                ),
            ),
        ensures
            final(matrix).wf(),
            final(matrix)@ == old(matrix)@.stamped(
                path_marks(
                    path.paths@,
                    origin,
                    old(matrix).width as int,
                    old(matrix).height as int,
                ),
            ),
    {
        let ghost orig = matrix@;
        let ghost sets = path.paths@.map_values(
            |e: CompoundPathElement| element_marks(e, origin, orig.width, orig.height),
        );
        proof {
            lemma_stamped_none(orig);
            assert(sets.take(0) =~= Seq::empty());
            assert(union_of(sets.take(0)) =~= Set::empty());
        }
        let mut i: usize = 0;
        while i < path.paths.len()
            invariant
                i <= path.paths@.len(),
                matrix.wf(),
                orig.wf(),
                matrix.width == orig.width,
                matrix.height == orig.height,
                sets == path.paths@.map_values(
                    |e: CompoundPathElement| element_marks(e, origin, orig.width, orig.height),
                ),
                orig.holds(union_of(sets)),
                matrix@ == orig.stamped(union_of(sets.take(i as int))),
            decreases path.paths@.len() - i,
        {
            proof {
                lemma_union_of_member(sets, i as int);
            }
            Self::rasterize_element(matrix, &path.paths[i], origin);
            proof {
                lemma_stamped_union(orig, union_of(sets.take(i as int)), sets[i as int]);
                lemma_union_of_push(sets.take(i as int), sets[i as int]);
                assert(sets.take(i + 1) =~= sets.take(i as int).push(sets[i as int]));
            }
            i += 1;
        }
        assert(sets.take(path.paths@.len() as int) =~= sets);
    }

    /// Stamps the curves onto the grid of a hole whose top-left corner is
    /// `origin`: the cell of every vertex of a polyline and of every sample of
    /// a spline becomes structure, whatever it was; no other cell changes.
    pub fn rasterize_intrapolated_curves(
        matrix: FilledHoleMatrix,
        curves: Vec<CompoundPath>,
        origin: PointI32,
    ) -> (rasterized: FilledHoleMatrix)
        requires
            matrix.wf(),
            matrix@.holds(
                curve_marks(curves@, origin, matrix.width as int, matrix.height as int),
            ),
        ensures
            rasterized.wf(),
            rasterized@ == matrix@.rasterized(curves@, origin),
    {
        let mut matrix = matrix;
        let ghost orig = matrix@;
        let ghost sets = curves@.map_values(
            |c: CompoundPath| path_marks(c.paths@, origin, orig.width, orig.height),
        );
        proof {
            lemma_stamped_none(orig);
            assert(sets.take(0) =~= Seq::empty());
            assert(union_of(sets.take(0)) =~= Set::empty());
        }
        let mut i: usize = 0;
        while i < curves.len()
            invariant
                i <= curves@.len(),
                matrix.wf(),
                orig.wf(),
                matrix.width == orig.width,
                matrix.height == orig.height,
                sets == curves@.map_values(
                    |c: CompoundPath| path_marks(c.paths@, origin, orig.width, orig.height),
                ),
                orig.holds(union_of(sets)),
                matrix@ == orig.stamped(union_of(sets.take(i as int))),
            decreases curves@.len() - i,
        {
            proof {
                lemma_union_of_member(sets, i as int);
            }
            Self::rasterize_path(&mut matrix, &curves[i], origin);
            proof {
                lemma_stamped_union(orig, union_of(sets.take(i as int)), sets[i as int]);
                lemma_union_of_push(sets.take(i as int), sets[i as int]);
                assert(sets.take(i + 1) =~= sets.take(i as int).push(sets[i as int]));
            }
            i += 1;
        }
        assert(sets.take(curves@.len() as int) =~= sets);
        matrix
    }
}

} // verus!
