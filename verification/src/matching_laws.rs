//! What holds of the equality and of the hash of matchings.

use crate::matching::{first_sum, hash_sums, same_pairing, second_sum, sorted_pair, sorted_pairs};
use vstd::prelude::*;
use vstd::seq_lib::{
    commutative_foldl, lemma_fold_left_permutation, to_multiset_contains, to_multiset_len,
    to_multiset_remove,
};

verus! {

/// `right` is `left` with the two indices of some pairs swapped.
pub open spec fn swapped_within(left: Seq<(usize, usize)>, right: Seq<(usize, usize)>) -> bool {
    &&& left.len() == right.len()
    &&& forall|i: int|
        0 <= i < left.len() ==> #[trigger] right[i] == left[i] || right[i] == (left[i].1, left[i].0)
}

/// Every matching equals itself.
pub proof fn lemma_equality_reflexive(pairs: Seq<(usize, usize)>)
    ensures
        same_pairing(pairs, pairs),
{
}

/// Equality of matchings does not depend on the side.
pub proof fn lemma_equality_symmetric(left: Seq<(usize, usize)>, right: Seq<(usize, usize)>)
    ensures
        same_pairing(left, right) == same_pairing(right, left),
{
}

/// Two matchings that equal a third one are equal.
pub proof fn lemma_equality_transitive(
    first: Seq<(usize, usize)>,
    second: Seq<(usize, usize)>,
    third: Seq<(usize, usize)>,
)
    requires
        same_pairing(first, second),
        same_pairing(second, third),
    ensures
        same_pairing(first, third),
{
}

/// Equal matchings have the same number of pairs, and each pair of one is,
/// smaller index first, a pair of the other.
pub proof fn lemma_equal_matchings_hold_the_same_pairs(
    left: Seq<(usize, usize)>,
    right: Seq<(usize, usize)>,
)
    requires
        same_pairing(left, right),
    ensures
        left.len() == right.len(),
        forall|pair: (usize, usize)|
            sorted_pairs(left).contains(pair) <==> sorted_pairs(right).contains(pair),
{
    to_multiset_len(sorted_pairs(left));
    to_multiset_len(sorted_pairs(right));
    assert forall|pair: (usize, usize)|
        sorted_pairs(left).contains(pair) <==> sorted_pairs(right).contains(pair) by {
        to_multiset_contains(sorted_pairs(left), pair);
        to_multiset_contains(sorted_pairs(right), pair);
    }
}

/// A matching equals the matching with the two indices of some of its pairs
/// swapped.
pub proof fn lemma_equality_ignores_swaps(left: Seq<(usize, usize)>, right: Seq<(usize, usize)>)
    requires
        swapped_within(left, right),
    ensures
        sorted_pairs(left) == sorted_pairs(right),
        same_pairing(left, right),
{
    assert(sorted_pairs(left) =~= sorted_pairs(right));
}

/// A matching equals the matching of the same pairs in another order.
pub proof fn lemma_equality_ignores_order(left: Seq<(usize, usize)>, right: Seq<(usize, usize)>)
    requires
        left.to_multiset() == right.to_multiset(),
    ensures
        same_pairing(left, right),
    decreases left.len(),
{
    to_multiset_len(left);
    to_multiset_len(right);
    if left.len() == 0 {
        assert(sorted_pairs(left) =~= sorted_pairs(right));
    } else {
        let last = left.last();
        assert(left.contains(last)) by {
            assert(left[left.len() - 1] == last);
        }
        to_multiset_contains(left, last);
        to_multiset_contains(right, last);
        let j = choose|j: int| 0 <= j < right.len() && right[j] == last;
        let left_rest = left.remove(left.len() - 1);
        let right_rest = right.remove(j);
        to_multiset_remove(left, left.len() - 1);
        to_multiset_remove(right, j);
        lemma_equality_ignores_order(left_rest, right_rest);
        assert(sorted_pairs(left).remove(left.len() - 1) =~= sorted_pairs(left_rest));
        assert(sorted_pairs(right).remove(j) =~= sorted_pairs(right_rest));
        to_multiset_remove(sorted_pairs(left), left.len() - 1);
        to_multiset_remove(sorted_pairs(right), j);
        let pair = sorted_pair(last);
        assert(sorted_pairs(left)[left.len() - 1] == pair);
        assert(sorted_pairs(right)[j] == pair);
        to_multiset_contains(sorted_pairs(left), pair);
        to_multiset_contains(sorted_pairs(right), pair);
        assert(sorted_pairs(left).contains(pair));
        assert(sorted_pairs(right).contains(pair));
        let lm = sorted_pairs(left).to_multiset();
        let rm = sorted_pairs(right).to_multiset();
        assert(lm.remove(pair) == rm.remove(pair));
        assert(lm =~= lm.remove(pair).insert(pair));
        assert(rm =~= rm.remove(pair).insert(pair));
    }
}

/// Equality with a third matching does not depend on the order of the pairs
/// of either side, nor on the order within them.
pub proof fn lemma_equality_of_reordered(
    left: Seq<(usize, usize)>,
    reordered: Seq<(usize, usize)>,
    other: Seq<(usize, usize)>,
)
    requires
        same_pairing(left, reordered),
    ensures
        same_pairing(left, other) == same_pairing(reordered, other),
        same_pairing(other, left) == same_pairing(other, reordered),
{
}

/// Equal matchings have the same hash: the two sums that are handed to the
/// hasher do not depend on the order of the pairs, nor on the order within
/// them.
pub proof fn lemma_hash_ignores_order(left: Seq<(usize, usize)>, right: Seq<(usize, usize)>)
    requires
        same_pairing(left, right),
    ensures
        hash_sums(left) == hash_sums(right),
{
    let first = |sum: int, pair: (usize, usize)| sum + pair.0;
    let second = |sum: int, pair: (usize, usize)| sum + pair.1;
    assert(commutative_foldl(first));
    assert(commutative_foldl(second));
    lemma_fold_left_permutation(sorted_pairs(left), sorted_pairs(right), first, 0int);
    lemma_fold_left_permutation(sorted_pairs(left), sorted_pairs(right), second, 0int);
    assert(first_sum(sorted_pairs(left)) == first_sum(sorted_pairs(right)));
    assert(second_sum(sorted_pairs(left)) == second_sum(sorted_pairs(right)));
}

} // verus!
