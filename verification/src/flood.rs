//! Flood fill of the blank region around a seed.

use crate::filler::HoleFiller;
use crate::geometry::PointI32;
use crate::grid::{lemma_cell_index, lemma_index_cell, FilledHoleElement, FilledHoleMatrix, Grid};
use vstd::prelude::*;

verus! {

/// Two cells share a side.
pub open spec fn adjacent(a: (int, int), b: (int, int)) -> bool {
    ||| (a.0 == b.0 && a.1 + 1 == b.1)
    ||| (a.0 == b.0 && a.1 == b.1 + 1)
    ||| (a.1 == b.1 && a.0 + 1 == b.0)
    ||| (a.1 == b.1 && a.0 == b.0 + 1)
}

impl Grid {
    /// `cell` lies in the grid and is blank.
    pub open spec fn blank_at(self, cell: (int, int)) -> bool {
        self.contains(cell.0, cell.1) && self.at(cell.0, cell.1) == FilledHoleElement::Blank
    }

    /// `path` is a walk through blank cells, each sharing a side with the one
    /// before it.
    pub open spec fn blank_path(self, path: Seq<(int, int)>) -> bool {
        &&& path.len() > 0
        &&& forall|i: int| 0 <= i < path.len() ==> self.blank_at(#[trigger] path[i])
        &&& forall|i: int| 0 < i < path.len() ==> adjacent(path[i - 1], #[trigger] path[i])
    }

    /// `from` and `to` are blank cells of one 4-connected blank region.
    pub open spec fn connected(self, from: (int, int), to: (int, int)) -> bool {
        exists|path: Seq<(int, int)>|
            #![auto]
            self.blank_path(path) && path[0] == from && path.last() == to
    }

    /// The grid after a flood fill from `seed`: the blank region that holds the
    /// seed has become texture, every other cell is as before.
    pub open spec fn flooded(self, seed: (int, int)) -> Grid {
        Grid {
            cells: Seq::new(
                self.cells.len(),
                |k: int|
                    if self.cells[k] == FilledHoleElement::Blank && self.connected(
                        seed,
                        (k % self.width, k / self.width),
                    ) {
                        FilledHoleElement::Texture
                    } else {
                        self.cells[k]
                    },
            ),
            ..self
        }
    }
}

/// A blank cell is connected to itself.
pub proof fn lemma_connected_reflexive(grid: Grid, cell: (int, int))
    requires
        grid.blank_at(cell),
    ensures
        grid.connected(cell, cell),
{
    let path = seq![cell];
    assert(grid.blank_path(path));
    assert(path[0] == cell && path.last() == cell);
}

/// A blank region grows by any blank cell next to one of its cells.
pub proof fn lemma_connected_step(grid: Grid, from: (int, int), via: (int, int), to: (int, int))
    requires
        grid.connected(from, via),
        grid.blank_at(to),
        adjacent(via, to),
    ensures
        grid.connected(from, to),
{
    let path = choose|path: Seq<(int, int)>|
        #![auto]
        grid.blank_path(path) && path[0] == from && path.last() == via;
    let longer = path.push(to);
    assert forall|i: int| 0 <= i < longer.len() implies grid.blank_at(#[trigger] longer[i]) by {
        if i < path.len() {
            assert(longer[i] == path[i]);
        }
    }
    assert forall|i: int| 0 < i < longer.len() implies adjacent(
        longer[i - 1],
        #[trigger] longer[i],
    ) by {
        if i < path.len() {
            assert(longer[i] == path[i]);
            assert(longer[i - 1] == path[i - 1]);
        } else {
            assert(longer[i - 1] == path.last());
        }
    }
    assert(grid.blank_path(longer));
    assert(longer[0] == from && longer.last() == to);
}

/// In a grid whose cells are all blank, every cell is connected to every other.
pub proof fn lemma_blank_grid_connected(grid: Grid, from: (int, int), to: (int, int))
    requires
        grid.wf(),
        forall|k: int| 0 <= k < grid.cells.len() ==> grid.cells[k] == FilledHoleElement::Blank,
        grid.contains(from.0, from.1),
        grid.contains(to.0, to.1),
    ensures
        grid.connected(from, to),
    decreases
            (if to.0 >= from.0 {
                to.0 - from.0
            } else {
                from.0 - to.0
            }) + (if to.1 >= from.1 {
                to.1 - from.1
            } else {
                from.1 - to.1
            }),
{
    lemma_cell_index(grid.width, grid.height, to.0, to.1);
    assert(grid.blank_at(to));
    if to == from {
        lemma_connected_reflexive(grid, from);
    } else {
        let via = if to.0 > from.0 {
            (to.0 - 1, to.1)
        } else if to.0 < from.0 {
            (to.0 + 1, to.1)
        } else if to.1 > from.1 {
            (to.0, to.1 - 1)
        } else {
            (to.0, to.1 + 1)
        };
        lemma_blank_grid_connected(grid, from, via);
        lemma_connected_step(grid, from, via, to);
    }
}

/// A flood fill of a grid whose cells are all blank, from a seed inside it,
/// turns every cell into texture.
pub proof fn lemma_flood_blank_grid(grid: Grid, seed: (int, int))
    requires
        grid.wf(),
        forall|k: int| 0 <= k < grid.cells.len() ==> grid.cells[k] == FilledHoleElement::Blank,
        grid.contains(seed.0, seed.1),
    ensures
        grid.flooded(seed).width == grid.width,
        grid.flooded(seed).height == grid.height,
        grid.flooded(seed).cells.len() == grid.cells.len(),
        forall|k: int|
            0 <= k < grid.cells.len() ==> grid.flooded(seed).cells[k] == FilledHoleElement::Texture,
{
    assert forall|k: int| 0 <= k < grid.cells.len() implies grid.flooded(seed).cells[k]
        == FilledHoleElement::Texture by {
        lemma_index_cell(grid.width, grid.height, k);
        lemma_blank_grid_connected(grid, seed, (k % grid.width, k / grid.width));
    }
}

/// A flood fill from a seed that is outside the grid, or on a cell that is
/// structure or texture already, leaves the grid as it is.
pub proof fn lemma_flood_from_occupied(grid: Grid, seed: (int, int))
    requires
        !grid.blank_at(seed),
    ensures
        grid.flooded(seed) == grid,
{
    assert forall|k: int| 0 <= k < grid.cells.len() implies grid.flooded(seed).cells[k]
        == grid.cells[k] by {
        let to = (k % grid.width, k / grid.width);
        if grid.connected(seed, to) {
            let path = choose|path: Seq<(int, int)>|
                #![auto]
                grid.blank_path(path) && path[0] == seed && path.last() == to;
            assert(grid.blank_at(path[0]));
        }
    }
    assert(grid.flooded(seed).cells =~= grid.cells);
}

/// A flood fill never touches structure: a cell changes only from blank to
/// texture.
pub proof fn lemma_flood_keeps_classified(grid: Grid, seed: (int, int), k: int)
    requires
        0 <= k < grid.cells.len(),
    ensures
        grid.cells[k] != FilledHoleElement::Blank ==> grid.flooded(seed).cells[k] == grid.cells[k],
        grid.flooded(seed).cells[k] == grid.cells[k] || grid.flooded(seed).cells[k]
            == FilledHoleElement::Texture,
        grid.flooded(seed).cells[k] == FilledHoleElement::Structure <==> grid.cells[k]
            == FilledHoleElement::Structure,
{
}

/// The cells of the flooded grid, by column and row: a blank cell of the
/// seed's region is texture, every other cell is as before.
pub proof fn lemma_flooded_cell(grid: Grid, seed: (int, int), x: int, y: int)
    requires
        grid.wf(),
        grid.contains(x, y),
    ensures
        grid.flooded(seed).wf(),
        grid.flooded(seed).width == grid.width,
        grid.flooded(seed).height == grid.height,
        grid.flooded(seed).at(x, y) == if grid.blank_at((x, y)) && grid.connected(seed, (x, y)) {
            FilledHoleElement::Texture
        } else {
            grid.at(x, y)
        },
{
    lemma_cell_index(grid.width, grid.height, x, y);
}

/// Number of blank cells.
pub open spec fn blank_count(cells: Seq<FilledHoleElement>) -> nat
    decreases cells.len(),
{
    if cells.len() == 0 {
        0
    } else {
        blank_count(cells.drop_last()) + if cells.last() == FilledHoleElement::Blank {
            1nat
        } else {
            0nat
        }
    }
}

/// Classifying one blank cell leaves one blank cell less.
proof fn lemma_blank_count_update(cells: Seq<FilledHoleElement>, k: int, elem: FilledHoleElement)
    requires
        0 <= k < cells.len(),
        cells[k] == FilledHoleElement::Blank,
        elem != FilledHoleElement::Blank,
    ensures
        blank_count(cells.update(k, elem)) + 1 == blank_count(cells),
    decreases cells.len(),
{
    let updated = cells.update(k, elem);
    if k == cells.len() - 1 {
        assert(updated.drop_last() =~= cells.drop_last());
    } else {
        assert(updated.drop_last() =~= cells.drop_last().update(k, elem));
        lemma_blank_count_update(cells.drop_last(), k, elem);
    }
}

/// `cell` waits on the stack.
spec fn pending(stack: Seq<(usize, usize)>, cell: (int, int)) -> bool {
    exists|i: int|
        0 <= i < stack.len() && (#[trigger] stack[i]).0 as int == cell.0 && stack[i].1 as int
            == cell.1
}

/// `cell` was blank at the start and is texture now.
spec fn filled(orig: Grid, cur: Grid, cell: (int, int)) -> bool {
    orig.blank_at(cell) && cur.at(cell.0, cell.1) == FilledHoleElement::Texture
}

/// Every cell is as at the start, or was blank, is texture now and belongs to
/// the seed's region.
spec fn fill_sound(orig: Grid, cur: Grid, seed: (int, int)) -> bool {
    &&& cur.width == orig.width
    &&& cur.height == orig.height
    &&& cur.cells.len() == orig.cells.len()
    &&& forall|x: int, y: int|
        orig.contains(x, y) ==> #[trigger] cur.at(x, y) == orig.at(x, y) || (filled(
            orig,
            cur,
            (x, y),
        ) && orig.connected(seed, (x, y)))
}

/// The seed and every neighbour of a filled cell are on the stack or need no
/// further visit.
spec fn fill_frontier(orig: Grid, cur: Grid, stack: Seq<(usize, usize)>, seed: (int, int)) -> bool {
    &&& pending(stack, seed) || !cur.blank_at(seed)
    &&& forall|c: (int, int), n: (int, int)|
        #![trigger filled(orig, cur, c), adjacent(c, n)]
        filled(orig, cur, c) && adjacent(c, n) ==> pending(stack, n) || !cur.blank_at(n)
}

/// Every blank cell on the stack belongs to the seed's region.
spec fn stack_sound(orig: Grid, stack: Seq<(usize, usize)>, seed: (int, int)) -> bool {
    forall|i: int|
        0 <= i < stack.len() && orig.blank_at(((#[trigger] stack[i]).0 as int, stack[i].1 as int))
            ==> orig.connected(seed, (stack[i].0 as int, stack[i].1 as int))
}

/// Once the stack is empty, every cell of a blank walk from the seed is filled.
proof fn lemma_path_filled(orig: Grid, cur: Grid, seed: (int, int), path: Seq<(int, int)>, i: int)
    requires
        orig.wf(),
        fill_sound(orig, cur, seed),
        fill_frontier(orig, cur, Seq::empty(), seed),
        orig.blank_path(path),
        path[0] == seed,
        0 <= i < path.len(),
    ensures
        filled(orig, cur, path[i]),
    decreases i,
{
    let c = path[i];
    assert(orig.blank_at(c));
    assert(cur.at(c.0, c.1) == orig.at(c.0, c.1) || filled(orig, cur, c));
    if i == 0 {
        assert(!pending(Seq::<(usize, usize)>::empty(), seed));
    } else {
        lemma_path_filled(orig, cur, seed, path, i - 1);
        assert(adjacent(path[i - 1], path[i]));
        assert(!pending(Seq::<(usize, usize)>::empty(), c));
    }
}

/// Once the stack is empty, the grid is the flooded one.
proof fn lemma_fill_complete(orig: Grid, cur: Grid, seed: (int, int))
    requires
        orig.wf(),
        fill_sound(orig, cur, seed),
        fill_frontier(orig, cur, Seq::empty(), seed),
    ensures
        cur == orig.flooded(seed),
{
    let target = orig.flooded(seed);
    assert forall|k: int| 0 <= k < cur.cells.len() implies cur.cells[k] == target.cells[k] by {
        lemma_index_cell(orig.width, orig.height, k);
        let x = k % orig.width;
        let y = k / orig.width;
        assert(orig.contains(x, y));
        assert(cur.at(x, y) == orig.at(x, y) || (filled(orig, cur, (x, y)) && orig.connected(
            seed,
            (x, y),
        )));
        if orig.cells[k] == FilledHoleElement::Blank && orig.connected(seed, (x, y)) {
            let path = choose|path: Seq<(int, int)>|
                #![auto]
                orig.blank_path(path) && path[0] == seed && path.last() == (x, y);
            lemma_path_filled(orig, cur, seed, path, path.len() - 1);
        }
    }
    assert(cur.cells =~= target.cells);
}

impl HoleFiller {
    /// Flood fills the blank region around `seed`. A seed outside the grid or
    /// on a cell that is not blank changes nothing.
    pub fn fill_hole_iterative(matrix: &mut FilledHoleMatrix, seed: PointI32)
        requires
            old(matrix).wf(),
        ensures
            final(matrix).wf(),
            final(matrix)@ == old(matrix)@.flooded((seed.x as int, seed.y as int)),
    {
        let ghost orig = matrix@;
        let ghost seed_cell = (seed.x as int, seed.y as int);
        let mut stack: Vec<(usize, usize)> = Vec::new();
        if seed.x >= 0 && seed.y >= 0 {
            stack.push((seed.x as usize, seed.y as usize));
            assert(stack@[0].0 as int == seed_cell.0 && stack@[0].1 as int == seed_cell.1);
            assert(pending(stack@, seed_cell));
            proof {
                if orig.blank_at(seed_cell) {
                    lemma_connected_reflexive(orig, seed_cell);
                }
            }
        }
        while stack.len() > 0
            invariant
                matrix.wf(),
                orig.wf(),
                fill_sound(orig, matrix@, seed_cell),
                fill_frontier(orig, matrix@, stack@, seed_cell),
                stack_sound(orig, stack@, seed_cell),
            decreases blank_count(matrix.elems@), stack.len(),
        {
            let ghost before = stack@;
            let ghost cur = matrix@;
            let (x, y) = stack.pop().unwrap();
            let ghost cell = (x as int, y as int);
            assert(before[before.len() - 1] == (x, y));
            assert(orig.blank_at(cell) ==> orig.connected(seed_cell, cell));
            assert forall|c: (int, int)| pending(before, c) implies pending(stack@, c) || c
                == cell by {
                let i = choose|i: int|
                    0 <= i < before.len() && (#[trigger] before[i]).0 as int == c.0
                        && before[i].1 as int == c.1;
                if i < stack@.len() {
                    assert(stack@[i] == before[i]);
                }
            }
            if x >= matrix.width || y >= matrix.height {
                assert(!cur.blank_at(cell));
                continue ;
            }
            proof {
                lemma_cell_index(matrix.width as int, matrix.height as int, x as int, y as int);
            }
            let index: usize = y * matrix.width + x;
            if matrix.elems[index] != FilledHoleElement::Blank {
                assert(!cur.blank_at(cell));
                continue ;
            }
            matrix.elems[index] = FilledHoleElement::Texture;
            proof {
                lemma_blank_count_update(cur.cells, index as int, FilledHoleElement::Texture);
                assert(cur.at(cell.0, cell.1) == orig.at(cell.0, cell.1));
                assert forall|a: int, b: int| orig.contains(a, b) && (a, b) != cell implies matrix@.at(
                    a,
                    b,
                ) == cur.at(a, b) by {
                    lemma_cell_index(orig.width, orig.height, a, b);
                }
            }
            stack.push((x + 1, y));
            stack.push((x, y + 1));
            if x > 0 {
                stack.push(((x - 1) as usize, y));
            }
            if y > 0 {
                stack.push((x, (y - 1) as usize));
            }
            proof {
                let after_pop = before.drop_last();
                assert forall|c: (int, int)| pending(after_pop, c) implies pending(stack@, c) by {
                    let i = choose|i: int|
                        0 <= i < after_pop.len() && (#[trigger] after_pop[i]).0 as int == c.0
                            && after_pop[i].1 as int == c.1;
                    assert(stack@[i] == after_pop[i]);
                }
                assert forall|n: (int, int)| adjacent(cell, n) implies pending(stack@, n)
                    || !matrix@.contains(n.0, n.1) by {
                    let base = after_pop.len() as int;
                    if n.0 == cell.0 + 1 {
                        assert(stack@[base] == (((x + 1) as usize, y)));
                    } else if n.1 == cell.1 + 1 {
                        assert(stack@[base + 1] == ((x, (y + 1) as usize)));
                    } else if n.0 == cell.0 - 1 {
                        if x > 0 {
                            assert(stack@[base + 2] == (((x - 1) as usize, y)));
                        }
                    } else {
                        if y > 0 {
                            if x > 0 {
                                assert(stack@[base + 3] == ((x, (y - 1) as usize)));
                            } else {
                                assert(stack@[base + 2] == ((x, (y - 1) as usize)));
                            }
                        }
                    }
                }
                assert forall|i: int|
                    0 <= i < stack@.len() && orig.blank_at(
                        ((#[trigger] stack@[i]).0 as int, stack@[i].1 as int),
                    ) implies orig.connected(seed_cell, (stack@[i].0 as int, stack@[i].1 as int)) by {
                    if i < after_pop.len() {
                        assert(stack@[i] == before[i]);
                    } else {
                        let n = (stack@[i].0 as int, stack@[i].1 as int);
                        assert(adjacent(cell, n));
                        lemma_connected_step(orig, seed_cell, cell, n);
                    }
                }
                assert forall|a: int, b: int| orig.contains(a, b) implies #[trigger] matrix@.at(a, b)
                    == orig.at(a, b) || (filled(orig, matrix@, (a, b)) && orig.connected(
                    seed_cell,
                    (a, b),
                )) by {
                    if (a, b) != cell {
                        assert(cur.at(a, b) == orig.at(a, b) || (filled(orig, cur, (a, b))
                            && orig.connected(seed_cell, (a, b))));
                    }
                }
                assert forall|c: (int, int), n: (int, int)|
                    #![trigger filled(orig, matrix@, c), adjacent(c, n)]
                    filled(orig, matrix@, c) && adjacent(c, n) implies pending(stack@, n)
                        || !matrix@.blank_at(n) by {
                    if c != cell {
                        assert(filled(orig, cur, c));
                        assert(pending(before, n) || !cur.blank_at(n));
                        if n != cell && matrix@.contains(n.0, n.1) {
                            assert(matrix@.at(n.0, n.1) == cur.at(n.0, n.1));
                        }
                    }
                }
            }
        }
        proof {
            assert(stack@ =~= Seq::empty());
            lemma_fill_complete(orig, matrix@, seed_cell);
        }
    }
}

} // verus!
