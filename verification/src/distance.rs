//! The pairwise distances between the items of two sets.

use crate::assignment::{
    is_cheapest, is_perfect_matching, minimize, optimal_assignment, MAX_COST,
};
use crate::matcher_helper::{MatchItem, MatchItemSet};
use crate::matching::{assignment_pairs, Matching};
use vstd::prelude::*;

verus! {

/// A square matrix of the distances between the items of two sets, row after
/// row. `D` is the type of a distance.
pub struct SquareDistanceMatrix<D> {
    pub n: usize,
    pub distances: Vec<D>,
}

impl<D> SquareDistanceMatrix<D> {
    /// The matrix holds `n * n` distances.
    pub open spec fn wf(&self) -> bool {
        self.distances.len() == self.n * self.n
    }

    /// The distance in column `j` of row `i`.
    pub open spec fn entry(&self, i: int, j: int) -> D
        recommends
            0 <= i < self.n,
            0 <= j < self.n,
    {
        self.distances@[i * self.n + j]
    }

    /// The distances between the items of two sets of the same size: the
    /// entry in column `j` of row `i` is what `distance` returns for item `i`
    /// of `set1` and item `j` of `set2`.
    pub fn from_two_sets<P, F>(
        set1: &MatchItemSet<P>,
        set2: &MatchItemSet<P>,
        distance: F,
    ) -> (matrix: Self) where F: Fn(&MatchItem<P>, &MatchItem<P>) -> D
        requires
            set1@.len() == set2@.len(),
            set1@.len() * set1@.len() <= usize::MAX,
            forall|i: int, j: int|
                0 <= i < set1@.len() && 0 <= j < set2@.len() ==> call_requires(
                    distance,
                    (&set1@[i], &set2@[j]),
                ),
        ensures
            matrix.wf(),
            matrix.n == set1@.len(),
            forall|i: int, j: int|
                0 <= i < set1@.len() && 0 <= j < set2@.len() ==> call_ensures(
                    distance,
                    (&set1@[i], &set2@[j]),
                    #[trigger] matrix.entry(i, j),
                ),
    {
        let n: usize = set1.len();
        let mut distances: Vec<D> = Vec::new();
        let mut i: usize = 0;
        while i < n
            invariant
                n == set1@.len(),
                n == set2@.len(),
                n * n <= usize::MAX,
                i <= n,
                distances@.len() == i * n,
                forall|a: int, b: int|
                    0 <= a < n && 0 <= b < n ==> call_requires(distance, (&set1@[a], &set2@[b])),
                forall|a: int, b: int|
                    0 <= a < i && 0 <= b < n ==> call_ensures(
                        distance,
                        (&set1@[a], &set2@[b]),
                        #[trigger] distances@[a * n + b],
                    ),
            decreases n - i,
        {
            let mut j: usize = 0;
            while j < n
                invariant
                    n == set1@.len(),
                    n == set2@.len(),
                    n * n <= usize::MAX,
                    i < n,
                    j <= n,
                    distances@.len() == i * n + j,
                    forall|a: int, b: int|
                        0 <= a < n && 0 <= b < n ==> call_requires(
                            distance,
                            (&set1@[a], &set2@[b]),
                        ),
                    forall|a: int, b: int|
                        0 <= a < i && 0 <= b < n ==> call_ensures(
                            distance,
                            (&set1@[a], &set2@[b]),
                            #[trigger] distances@[a * n + b],
                        ),
                    forall|b: int|
                        0 <= b < j ==> call_ensures(
                            distance,
                            (&set1@[i as int], &set2@[b]),
                            #[trigger] distances@[i * n + b],
                        ),
                decreases n - j,
            {
                proof {
                    lemma_entry_index(n as int, i as int, j as int);
                }
                let ghost before = distances@;
                let d = distance(set1.get(i), set2.get(j));
                distances.push(d);
                proof {
                    assert forall|a: int, b: int| 0 <= a < i && 0 <= b < n implies call_ensures(
                        distance,
                        (&set1@[a], &set2@[b]),
                        #[trigger] distances@[a * n + b],
                    ) by {
                        lemma_entry_index(n as int, a, b);
                        lemma_rows_in_order(n as int, a, b, i as int, j as int);
                        assert(distances@[a * n + b] == before[a * n + b]);
                    }
                    assert forall|b: int| 0 <= b < j + 1 implies call_ensures(
                        distance,
                        (&set1@[i as int], &set2@[b]),
                        #[trigger] distances@[i * n + b],
                    ) by {
                        if b < j {
                            assert(distances@[i * n + b] == before[i * n + b]);
                        }
                    }
                }
                j += 1;
            }
            proof {
                assert((i + 1) * n == i * n + n) by (nonlinear_arith);
                assert forall|a: int, b: int| 0 <= a < i + 1 && 0 <= b < n implies call_ensures(
                    distance,
                    (&set1@[a], &set2@[b]),
                    #[trigger] distances@[a * n + b],
                ) by {
                    if a == i {
                        assert(distances@[a * n + b] == distances@[i * n + b]);
                    }
                }
            }
            i += 1;
        }
        SquareDistanceMatrix { n, distances }
    }

    /// The distances of row `index`.
    pub fn row(&self, index: usize) -> (row: &[D])
        requires
            self.wf(),
            index < self.n,
        ensures
            row@ == self.distances@.subrange(index * self.n, (index + 1) * self.n),
            row@.len() == self.n,
            forall|j: int| 0 <= j < self.n ==> row@[j] == self.entry(index as int, j),
    {
        proof {
            lemma_entry_index(self.n as int, index as int, 0);
            assert((index + 1) * self.n == index * self.n + self.n) by (nonlinear_arith);
            assert((index + 1) * self.n <= self.n * self.n) by (nonlinear_arith)
                requires
                    index + 1 <= self.n,
            ;
        }
        let start: usize = index * self.n;
        let end: usize = start + self.n;
        vstd::slice::slice_subrange(self.distances.as_slice(), start, end)
    }

    /// The distances of row `index`, to be written. The other rows stay as
    /// they are.
    pub fn row_mut(&mut self, index: usize) -> (row: &mut [D])
        requires
            old(self).wf(),
            index < old(self).n,
        ensures
            row@ == old(self).distances@.subrange(
                index * old(self).n,
                index * old(self).n + old(self).n,
            ),
            final(self).n == old(self).n,
            final(self).distances@ == old(self).distances@.subrange(0, index * old(self).n)
                + final(row)@ + old(self).distances@.subrange(
                index * old(self).n + old(self).n,
                old(self).distances@.len() as int,
            ),
    {
        proof {
            lemma_entry_index(self.n as int, index as int, 0);
            assert(index * self.n + self.n <= self.n * self.n) by (nonlinear_arith)
                requires
                    index + 1 <= self.n,
            ;
        }
        let ghost before = self.distances@;
        let n: usize = self.n;
        let start: usize = index * n;
        let (head, rest) = self.distances.as_mut_slice().split_at_mut(start);
        let (row, tail) = rest.split_at_mut(n);
        proof {
            assert(head@ =~= before.subrange(0, start as int));
            assert(row@ =~= before.subrange(start as int, start + n));
            assert(tail@ =~= before.subrange(start + n, before.len() as int));
        }
        row
    }

    /// The matrix with each distance converted: each entry is what `convert`
    /// returns for the entry in its place.
    pub fn map_distances<E, F>(&self, convert: F) -> (matrix: SquareDistanceMatrix<E>) where
        F: Fn(&D) -> E,
        requires
            forall|k: int| 0 <= k < self.distances@.len() ==> call_requires(
                convert,
                (&self.distances@[k],),
            ),
        ensures
            matrix.n == self.n,
            matrix.distances@.len() == self.distances@.len(),
            forall|k: int|
                0 <= k < self.distances@.len() ==> call_ensures(
                    convert,
                    (&self.distances@[k],),
                    #[trigger] matrix.distances@[k],
                ),
    {
        let mut distances: Vec<E> = Vec::new();
        let mut k: usize = 0;
        while k < self.distances.len()
            invariant
                k <= self.distances@.len(),
                distances@.len() == k,
                forall|i: int| 0 <= i < self.distances@.len() ==> call_requires(
                    convert,
                    (&self.distances@[i],),
                ),
                forall|i: int|
                    0 <= i < k ==> call_ensures(
                        convert,
                        (&self.distances@[i],),
                        #[trigger] distances@[i],
                    ),
            decreases self.distances@.len() - k,
        {
            let converted = convert(&self.distances[k]);
            distances.push(converted);
            k += 1;
        }
        SquareDistanceMatrix { n: self.n, distances }
    }
}

impl SquareDistanceMatrix<u64> {
    /// A matching of least total distance between the rows and the columns of
    /// a matrix of whole distances.
    pub fn into_matching(self) -> (matching: Matching)
        requires
            self.wf(),
            forall|k: int| 0 <= k < self.distances@.len() ==> self.distances@[k] <= MAX_COST,
        ensures
            matching@ == assignment_pairs(optimal_assignment(self.distances@, self.n)),
            is_perfect_matching(matching@, self.n as int),
            is_cheapest(self.distances@, self.n as int, matching@),
    {
        let n: usize = self.n;
        let hungarian_result = minimize(&self.distances, n);
        Matching::from_hungarian_result(hungarian_result)
    }
}

/// The place of an entry among the `n * n` of the matrix.
pub proof fn lemma_entry_index(n: int, i: int, j: int)
    requires
        0 <= i < n,
        0 <= j < n,
    ensures
        0 <= i * n,
        0 <= i * n + j < n * n,
{
    assert(0 <= i * n) by (nonlinear_arith)
        requires
            0 <= i,
            0 <= n,
    ;
    assert(i * n + n <= n * n) by (nonlinear_arith)
        requires
            i + 1 <= n,
            0 <= n,
    ;
}

/// An entry of an earlier row comes before the entries of a later row.
proof fn lemma_rows_in_order(n: int, a: int, b: int, i: int, j: int)
    requires
        0 <= a < i,
        0 <= b < n,
        0 <= j,
    ensures
        a * n + b < i * n + j,
{
    assert(a * n + n <= i * n) by (nonlinear_arith)
        requires
            a + 1 <= i,
            0 <= n,
    ;
}

} // verus!
