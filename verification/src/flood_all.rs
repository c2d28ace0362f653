//! Flood fills from several seeds, one after the other.

use crate::grid::{FilledHoleElement, Grid};
use vstd::prelude::*;

verus! {

/// The grid after a flood fill from each seed in turn.
pub open spec fn flood_all(grid: Grid, seeds: Seq<(int, int)>) -> Grid
    decreases seeds.len(),
{
    if seeds.len() == 0 {
        grid
    } else {
        flood_all(grid.flooded(seeds[0]), seeds.drop_first())
    }
}

/// Filling from one list of seeds and then from another is filling from the
/// two lists joined.
pub proof fn lemma_flood_all_concat(grid: Grid, first: Seq<(int, int)>, second: Seq<(int, int)>)
    ensures
        flood_all(grid, first + second) == flood_all(flood_all(grid, first), second),
    decreases first.len(),
{
    if first.len() == 0 {
        assert(first + second =~= second);
    } else {
        assert((first + second).drop_first() =~= first.drop_first() + second);
        assert((first + second)[0] == first[0]);
        lemma_flood_all_concat(grid.flooded(first[0]), first.drop_first(), second);
    }
}

/// Flood fills keep the size of the grid and its structure: a cell is
/// structure afterwards exactly if it was before, and a cell that has changed
/// was blank and is texture.
pub proof fn lemma_flood_all_keeps_structure(grid: Grid, seeds: Seq<(int, int)>, k: int)
    requires
        0 <= k < grid.cells.len(),
    ensures
        flood_all(grid, seeds).width == grid.width,
        flood_all(grid, seeds).height == grid.height,
        flood_all(grid, seeds).cells.len() == grid.cells.len(),
        flood_all(grid, seeds).cells[k] == FilledHoleElement::Structure <==> grid.cells[k]
            == FilledHoleElement::Structure,
        flood_all(grid, seeds).cells[k] == grid.cells[k] || (grid.cells[k]
            == FilledHoleElement::Blank && flood_all(grid, seeds).cells[k]
            == FilledHoleElement::Texture),
    decreases seeds.len(),
{
    if seeds.len() > 0 {
        lemma_flood_all_keeps_structure(grid.flooded(seeds[0]), seeds.drop_first(), k);
    }
}

} // verus!
