//! A matching between two index spaces, compared without regard to the order
//! of its pairs or to the order within a pair.

use std::hash::{Hash, Hasher};
use std::slice::Iter;
use vstd::multiset::Multiset;
use vstd::prelude::*;
use vstd::seq_lib::{
    lemma_multiset_commutative, to_multiset_build, to_multiset_contains, to_multiset_len,
    to_multiset_remove,
};
use vstd::std_specs::cmp::PartialEqSpecImpl;
use vstd::std_specs::iter::IteratorSpec;
use vstd::std_specs::slice::into_iter_elts;

verus! {

/// A collection of index pairs.
#[derive(Debug)]
pub struct Matching {
    pub index_pairs: Vec<(usize, usize)>,
}

impl View for Matching {
    type V = Seq<(usize, usize)>;

    open spec fn view(&self) -> Seq<(usize, usize)> {
        self.index_pairs@
    }
}

/// The pair with its smaller index first.
pub open spec fn sorted_pair(pair: (usize, usize)) -> (usize, usize) {
    if pair.0 <= pair.1 {
        pair
    } else {
        (pair.1, pair.0)
    }
}

/// Each pair with its smaller index first; the order of the pairs is kept.
pub open spec fn sorted_pairs(pairs: Seq<(usize, usize)>) -> Seq<(usize, usize)> {
    pairs.map_values(|pair: (usize, usize)| sorted_pair(pair))
}

/// What `==` means for two matchings: they hold the same pairs, each as often
/// as the other, whatever the order of the pairs and the order within each
/// pair.
pub open spec fn same_pairing(left: Seq<(usize, usize)>, right: Seq<(usize, usize)>) -> bool {
    sorted_pairs(left).to_multiset() == sorted_pairs(right).to_multiset()
}

/// Sum of the first indices.
pub open spec fn first_sum(pairs: Seq<(usize, usize)>) -> int {
    pairs.fold_left(0int, |sum: int, pair: (usize, usize)| sum + pair.0)
}

/// Sum of the second indices.
pub open spec fn second_sum(pairs: Seq<(usize, usize)>) -> int {
    pairs.fold_left(0int, |sum: int, pair: (usize, usize)| sum + pair.1)
}

/// The two numbers that the hash of a matching is made of: the sum of the
/// smaller indices of its pairs and the sum of the larger ones, each wrapped
/// into `usize`.
pub open spec fn hash_sums(pairs: Seq<(usize, usize)>) -> (usize, usize) {
    (
        (first_sum(sorted_pairs(pairs)) % (usize::MAX + 1)) as usize,
        (second_sum(sorted_pairs(pairs)) % (usize::MAX + 1)) as usize,
    )
}

/// The pair with its smaller index first.
pub fn sort_index_pair(pair: (usize, usize)) -> (sorted: (usize, usize))
    ensures
        sorted == sorted_pair(pair),
{
    let (a, b) = pair;
    if a <= b {
        (a, b)
    } else {
        (b, a)
    }
}

/// Each pair with its smaller index first. Only the pairs themselves are
/// sorted, not the list.
pub fn get_sorted_index_pairs(index_pairs: &[(usize, usize)]) -> (sorted: Vec<(usize, usize)>)
    ensures
        sorted@ == sorted_pairs(index_pairs@),
{
    let mut sorted: Vec<(usize, usize)> = Vec::new();
    let mut i: usize = 0;
    while i < index_pairs.len()
        invariant
            i <= index_pairs@.len(),
            sorted@.len() == i,
            forall|k: int| 0 <= k < i ==> sorted@[k] == sorted_pair(index_pairs@[k]),
        decreases index_pairs@.len() - i,
    {
        sorted.push(sort_index_pair(index_pairs[i]));
        i += 1;
    }
    assert(sorted@ =~= sorted_pairs(index_pairs@));
    sorted
}

/// Hands one number to a hasher, through `Hash::hash` of `usize`. Nothing is
/// known of the state of a hasher.
#[verifier::external_body]
fn feed<H: Hasher>(state: &mut H, value: usize) {
    value.hash(state)
}

impl Default for Matching {
    fn default() -> (matching: Self)
        ensures
            matching@.len() == 0,
    {
        Matching { index_pairs: Vec::new() }
    }
}

impl Matching {
    /// The matching without pairs.
    pub fn new() -> (matching: Self)
        ensures
            matching@.len() == 0,
    {
        Matching { index_pairs: Vec::new() }
    }

    /// The matching of the given pairs.
    pub fn from_pairs(pairs: Vec<(usize, usize)>) -> (matching: Self)
        ensures
            matching@ == pairs@,
    {
        Matching { index_pairs: pairs }
    }

    /// The pairs in the order in which they are held.
    pub fn iter(&self) -> (pairs: Iter<'_, (usize, usize)>)
        ensures
            into_iter_elts(pairs) == self@,
            IteratorSpec::decrease(&pairs) is Some,
            IteratorSpec::initial_value_relation(&pairs, &pairs),
    {
        self.index_pairs.iter()
    }

    /// The matching that an assignment of a column to each row stands for:
    /// row `i` with its column, for each `i` in turn.
    pub fn from_hungarian_result(hungarian_result: Vec<Option<usize>>) -> (matching: Self)
        requires
            forall|i: int| 0 <= i < hungarian_result@.len() ==> hungarian_result@[i] is Some,
        ensures
            matching@ == assignment_pairs(hungarian_result@),
    {
        let mut index_pairs: Vec<(usize, usize)> = Vec::new();
        let mut i: usize = 0;
        while i < hungarian_result.len()
            invariant
                i <= hungarian_result@.len(),
                index_pairs@.len() == i,
                forall|k: int| 0 <= k < hungarian_result@.len() ==> hungarian_result@[k] is Some,
                forall|k: int|
                    0 <= k < i ==> index_pairs@[k] == (k as usize, hungarian_result@[k]->Some_0),
            decreases hungarian_result@.len() - i,
        {
            match hungarian_result[i] {
                Some(j) => {
                    index_pairs.push((i, j));
                },
                None => {},
            }
            i += 1;
        }
        assert(index_pairs@ =~= assignment_pairs(hungarian_result@));
        Matching { index_pairs }
    }

    /// The two numbers that are handed to a hasher.
    pub fn pair_sums(&self) -> (sums: (usize, usize))
        ensures
            sums == hash_sums(self@),
    {
        let sorted = get_sorted_index_pairs(self.index_pairs.as_slice());
        let mut sum_a: usize = 0;
        let mut sum_b: usize = 0;
        let mut i: usize = 0;
        proof {
            assert(sorted@.take(0) =~= Seq::empty());
            assert(first_sum(sorted@.take(0)) == 0);
            assert(second_sum(sorted@.take(0)) == 0);
            vstd::arithmetic::div_mod::lemma_small_mod(0, (usize::MAX + 1) as nat);
        }
        while i < sorted.len()
            invariant
                i <= sorted@.len(),
                sum_a == first_sum(sorted@.take(i as int)) % (usize::MAX + 1),
                sum_b == second_sum(sorted@.take(i as int)) % (usize::MAX + 1),
            decreases sorted@.len() - i,
        {
            let (a, b) = sorted[i];
            proof {
                let shorter = sorted@.take(i as int);
                let longer = sorted@.take(i + 1);
                assert(longer.drop_last() =~= shorter);
                assert(longer.last() == (a, b));
                assert(first_sum(longer) == first_sum(shorter) + a);
                assert(second_sum(longer) == second_sum(shorter) + b);
                lemma_wrapping_step(first_sum(shorter), a as int, usize::MAX + 1);
                lemma_wrapping_step(second_sum(shorter), b as int, usize::MAX + 1);
            }
            sum_a = sum_a.wrapping_add(a);
            sum_b = sum_b.wrapping_add(b);
            i += 1;
        }
        assert(sorted@.take(sorted@.len() as int) =~= sorted@);
        (sum_a, sum_b)
    }
}

/// The pairs of an assignment of a column to each row.
pub open spec fn assignment_pairs(assignment: Seq<Option<usize>>) -> Seq<(usize, usize)> {
    Seq::new(assignment.len(), |i: int| (i as usize, assignment[i]->Some_0))
}

/// Adding to a sum that is kept modulo `m`.
proof fn lemma_wrapping_step(sum: int, value: int, m: int)
    requires
        m > 0,
        0 <= value < m,
    ensures
        (sum + value) % m == if sum % m + value >= m {
            sum % m + value - m
        } else {
            sum % m + value
        },
{
    vstd::arithmetic::div_mod::lemma_fundamental_div_mod(sum, m);
    vstd::arithmetic::div_mod::lemma_mod_bound(sum, m);
    let q = sum / m;
    let r = sum % m;
    assert(m * q == q * m) by (nonlinear_arith);
    if r + value >= m {
        assert(sum + value == (q + 1) * m + (r + value - m)) by (nonlinear_arith)
            requires
                sum == q * m + r,
        ;
        vstd::arithmetic::div_mod::lemma_fundamental_div_mod_converse(
            sum + value,
            m,
            q + 1,
            r + value - m,
        );
    } else {
        vstd::arithmetic::div_mod::lemma_fundamental_div_mod_converse(sum + value, m, q, r + value);
    }
}

/// A list without pairs holds no pair.
proof fn lemma_no_pairs(pairs: Seq<(usize, usize)>)
    requires
        pairs.len() == 0,
    ensures
        pairs.to_multiset() == Multiset::<(usize, usize)>::empty(),
{
    assert forall|pair: (usize, usize)| pairs.to_multiset().count(pair) == 0 by {
        to_multiset_contains(pairs, pair);
    }
    assert(pairs.to_multiset() =~= Multiset::<(usize, usize)>::empty());
}

impl PartialEq for Matching {
    fn eq(&self, other: &Self) -> (equal: bool) {
        let len: usize = self.index_pairs.len();
        let self_sorted_index_pairs = get_sorted_index_pairs(self.index_pairs.as_slice());
        let mut unmatched = get_sorted_index_pairs(other.index_pairs.as_slice());
        let ghost left = self_sorted_index_pairs@;
        let ghost right = unmatched@;
        if len != other.index_pairs.len() {
            proof {
                to_multiset_len(left);
                to_multiset_len(right);
            }
            return false;
        }
        let mut i: usize = 0;
        proof {
            lemma_no_pairs(left.take(0));
            assert(left.take(0).to_multiset().add(right.to_multiset()) =~= right.to_multiset());
        }
        while i < len
            invariant
                left == self_sorted_index_pairs@,
                left == sorted_pairs(self@),
                right == sorted_pairs(other@),
                len == left.len(),
                i <= len,
                unmatched@.len() == len - i,
                left.take(i as int).to_multiset().add(unmatched@.to_multiset())
                    == right.to_multiset(),
            decreases len - i,
        {
            let pair = self_sorted_index_pairs[i];
            let mut j: usize = 0;
            while j < unmatched.len() && (unmatched[j].0 != pair.0 || unmatched[j].1 != pair.1)
                invariant
                    j <= unmatched@.len(),
                    forall|k: int| 0 <= k < j ==> unmatched@[k] != pair,
                decreases unmatched@.len() - j,
            {
                j += 1;
            }
            proof {
                let shorter = left.take(i as int);
                let longer = left.take(i + 1);
                assert(longer =~= shorter.push(pair));
                to_multiset_build(shorter, pair);
                to_multiset_contains(unmatched@, pair);
            }
            if j == unmatched.len() {
                proof {
                    let longer = left.take(i + 1);
                    let rest = left.skip(i + 1);
                    assert(left =~= longer + rest);
                    lemma_multiset_commutative(longer, rest);
                    assert(!unmatched@.contains(pair));
                    assert(right.to_multiset().count(pair) == left.take(
                        i as int,
                    ).to_multiset().count(pair));
                    assert(left.to_multiset().count(pair) > right.to_multiset().count(pair));
                }
                return false;
            }
            let ghost before = unmatched@;
            unmatched.remove(j);
            proof {
                to_multiset_remove(before, j as int);
                assert(before[j as int] == pair);
                assert(left.take(i + 1).to_multiset().add(unmatched@.to_multiset()) =~= left.take(
                    i as int,
                ).to_multiset().add(before.to_multiset()));
            }
            i += 1;
        }
        proof {
            assert(left.take(len as int) =~= left);
            lemma_no_pairs(unmatched@);
            assert(left.to_multiset().add(unmatched@.to_multiset()) =~= left.to_multiset());
        }
        true
    }
}

impl PartialEqSpecImpl for Matching {
    open spec fn obeys_eq_spec() -> bool {
        true
    }

    open spec fn eq_spec(&self, other: &Self) -> bool {
        same_pairing(self@, other@)
    }
}

impl Eq for Matching {

}

impl Hash for Matching {
    fn hash<H: Hasher>(&self, state: &mut H) {
        let (sum_a, sum_b) = self.pair_sums();
        feed(state, sum_a);
        feed(state, sum_b);
    }
}

impl IntoIterator for Matching {
    type Item = (usize, usize);

    type IntoIter = std::vec::IntoIter<(usize, usize)>;

    fn into_iter(self) -> (pairs: Self::IntoIter)
        ensures
            vstd::std_specs::vec::into_iter_elts(pairs) == self@,
    {
        self.index_pairs.into_iter()
    }
}

} // verus!
