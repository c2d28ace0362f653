//! Minimum-cost assignment of columns to rows, solved by the hungarian crate.

use crate::matching::assignment_pairs;
use vstd::prelude::*;

verus! {

/// The largest cost that the solver is handed. While it works, the solver
/// adds the smallest entry that no line covers to the entries of the covered
/// rows of its copy of the matrix. No entry grows beyond three times the
/// largest cost, so that with costs up to this one nothing leaves `u64`.
pub const MAX_COST: u64 = 0x3fff_ffff_ffff_ffff;

/// What `hungarian::minimize` returns for a square matrix of `n` rows, given
/// row after row: for each row the column that it is assigned.
pub uninterp spec fn optimal_assignment(costs: Seq<u64>, n: usize) -> Seq<Option<usize>>;

/// The pairs give each of the `n` rows, in order, a column of its own.
pub open spec fn is_perfect_matching(pairs: Seq<(usize, usize)>, n: int) -> bool {
    &&& pairs.len() == n
    &&& forall|i: int| 0 <= i < n ==> (#[trigger] pairs[i]).0 == i && pairs[i].1 < n
    &&& forall|i: int, j: int|
        0 <= i < j < n ==> (#[trigger] pairs[i]).1 != (#[trigger] pairs[j]).1
}

/// The sum of the costs of the first `count` pairs in a matrix of `n` columns.
pub open spec fn matching_cost(costs: Seq<u64>, n: int, pairs: Seq<(usize, usize)>, count: int) -> int
    decreases count,
{
    if count <= 0 {
        0
    } else {
        matching_cost(costs, n, pairs, count - 1) + costs[pairs[count - 1].0 * n + pairs[count
            - 1].1]
    }
}

/// No perfect matching costs less than `pairs`.
pub open spec fn is_cheapest(costs: Seq<u64>, n: int, pairs: Seq<(usize, usize)>) -> bool {
    forall|other: Seq<(usize, usize)>| #[trigger]
        is_perfect_matching(other, n) ==> matching_cost(costs, n, pairs, n) <= matching_cost(
            costs,
            n,
            other,
            n,
        )
}

/// Calls `hungarian::minimize` on a square matrix of `n` rows. Its
/// documentation promises a matching of least total cost, in which a row goes
/// without a column only where there are fewer columns than rows. It is the
/// Kuhn-Munkres algorithm, reads nothing but its arguments, and indexes the
/// matrix up to `n * n`.
#[verifier::external_body]
pub(crate) fn minimize(costs: &Vec<u64>, n: usize) -> (assignment: Vec<Option<usize>>)
    requires
        costs@.len() == n * n,
        forall|k: int| 0 <= k < costs@.len() ==> costs@[k] <= MAX_COST,
    ensures
        assignment@ == optimal_assignment(costs@, n),
        assignment@.len() == n,
        forall|i: int| 0 <= i < n ==> assignment@[i] is Some,
        is_perfect_matching(assignment_pairs(assignment@), n as int),
        is_cheapest(costs@, n as int, assignment_pairs(assignment@)),
{
    hungarian::minimize(costs, n, n)
}

} // verus!
