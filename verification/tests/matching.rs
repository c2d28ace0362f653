use shapecompletion::{get_sorted_index_pairs, sort_index_pair, Matching};
use std::collections::hash_map::DefaultHasher;
use std::collections::HashSet;
use std::hash::{Hash, Hasher};

fn hash_of(matching: &Matching) -> u64 {
    let mut hasher = DefaultHasher::new();
    matching.hash(&mut hasher);
    hasher.finish()
}

#[test]
fn pair_is_sorted_smaller_first() {
    assert_eq!(sort_index_pair((1, 2)), (1, 2));
    assert_eq!(sort_index_pair((2, 1)), (1, 2));
    assert_eq!(sort_index_pair((3, 3)), (3, 3));
    assert_eq!(sort_index_pair((usize::MAX, 0)), (0, usize::MAX));
}

#[test]
fn only_the_pairs_are_sorted_not_the_list() {
    assert_eq!(
        get_sorted_index_pairs(&[(5, 4), (0, 9), (3, 1), (2, 2)]),
        vec![(4, 5), (0, 9), (1, 3), (2, 2)]
    );
    assert_eq!(get_sorted_index_pairs(&[]), Vec::new());
}

#[test]
fn new_matching_is_empty() {
    assert_eq!(Matching::new().index_pairs, Vec::new());
    assert_eq!(Matching::default().index_pairs, Vec::new());
    assert!(Matching::new() == Matching::default());
}

#[test]
fn from_pairs_keeps_the_pairs() {
    let matching = Matching::from_pairs(vec![(0, 1), (2, 3)]);
    assert_eq!(matching.index_pairs, vec![(0, 1), (2, 3)]);
}

#[test]
fn iter_and_into_iter_give_the_pairs_in_order() {
    let matching = Matching::from_pairs(vec![(4, 1), (0, 3)]);
    let seen: Vec<(usize, usize)> = matching.iter().copied().collect();
    assert_eq!(seen, vec![(4, 1), (0, 3)]);
    let owned: Vec<(usize, usize)> = matching.into_iter().collect();
    assert_eq!(owned, vec![(4, 1), (0, 3)]);
}

#[test]
fn from_hungarian_result_pairs_each_row_with_its_column() {
    let matching = Matching::from_hungarian_result(vec![Some(2), Some(0), Some(1)]);
    assert_eq!(matching.index_pairs, vec![(0, 2), (1, 0), (2, 1)]);
    assert_eq!(Matching::from_hungarian_result(Vec::new()).index_pairs, Vec::new());
}

#[test]
fn equality_ignores_the_order_of_pairs() {
    let a = Matching::from_pairs(vec![(0, 3), (1, 4), (2, 5)]);
    let b = Matching::from_pairs(vec![(2, 5), (0, 3), (1, 4)]);
    assert!(a == b);
    assert!(b == a);
    assert_eq!(hash_of(&a), hash_of(&b));
    assert_eq!(a.pair_sums(), b.pair_sums());
}

#[test]
fn equality_ignores_the_order_within_pairs() {
    let a = Matching::from_pairs(vec![(0, 3), (1, 4), (2, 5)]);
    let b = Matching::from_pairs(vec![(3, 0), (1, 4), (5, 2)]);
    assert!(a == b);
    assert!(b == a);
    assert_eq!(hash_of(&a), hash_of(&b));
}

#[test]
fn different_pairings_differ() {
    let a = Matching::from_pairs(vec![(0, 3), (1, 4), (2, 5)]);
    let b = Matching::from_pairs(vec![(0, 4), (1, 3), (2, 5)]);
    assert!(a != b);
    assert!(b != a);
}

#[test]
fn different_numbers_of_pairs_differ() {
    let a = Matching::from_pairs(vec![(0, 3), (1, 4)]);
    let b = Matching::from_pairs(vec![(0, 3), (1, 4), (2, 5)]);
    assert!(a != b);
    assert!(b != a);
    assert!(a != Matching::new());
}

#[test]
fn a_matching_with_a_longer_cycle_equals_its_reordering() {
    // 0 is the smaller index of (0, 1) and of (2, 0).
    let a = Matching::from_pairs(vec![(0, 1), (1, 2), (2, 0)]);
    let b = Matching::from_pairs(vec![(2, 0), (0, 1), (1, 2)]);
    let c = Matching::from_pairs(vec![(0, 1), (1, 2), (2, 0)]);
    assert!(a == b);
    assert!(b == a);
    assert!(a == c);
    assert_eq!(hash_of(&a), hash_of(&b));
    // A pair and its mirror image are one pair.
    let d = Matching::from_pairs(vec![(0, 1), (1, 0)]);
    let e = Matching::from_pairs(vec![(1, 0), (0, 1)]);
    assert!(d == e);
}

#[test]
fn a_pair_counts_as_often_as_it_occurs() {
    let a = Matching::from_pairs(vec![(0, 1), (1, 2)]);
    let b = Matching::from_pairs(vec![(0, 1), (0, 1)]);
    assert!(a != b);
    assert!(b != a);
    let c = Matching::from_pairs(vec![(1, 0), (0, 1)]);
    assert!(b == c);
    assert!(c == b);
    let d = Matching::from_pairs(vec![(0, 1), (0, 2)]);
    let e = Matching::from_pairs(vec![(0, 2), (2, 0)]);
    assert!(d != e);
    assert!(e != d);
    let f = Matching::from_pairs(vec![(2, 0), (1, 0)]);
    assert!(d == f);
}

#[test]
fn every_order_of_the_pairs_is_equal() {
    let pairs = vec![(3, 0), (1, 4), (2, 2), (0, 1), (4, 3)];
    let first = Matching::from_pairs(pairs.clone());
    for shift in 0..pairs.len() {
        let mut other = pairs.clone();
        other.rotate_left(shift);
        other.swap(0, 2);
        for pair in other.iter_mut().step_by(2) {
            *pair = (pair.1, pair.0);
        }
        let other = Matching::from_pairs(other);
        assert!(first == other);
        assert!(other == first);
        assert_eq!(first.pair_sums(), other.pair_sums());
    }
}

#[test]
fn hash_is_made_of_the_sums_of_smaller_and_larger_indices() {
    let a = Matching::from_pairs(vec![(0, 3), (4, 1), (2, 5)]);
    assert_eq!(a.pair_sums(), (3, 12));
    assert_eq!(Matching::new().pair_sums(), (0, 0));
    let mut hasher = DefaultHasher::new();
    3usize.hash(&mut hasher);
    12usize.hash(&mut hasher);
    assert_eq!(hash_of(&a), hasher.finish());
}

#[test]
fn hash_sums_wrap_around() {
    let a = Matching::from_pairs(vec![(usize::MAX, usize::MAX), (2, usize::MAX), (1, 1)]);
    assert_eq!(a.pair_sums(), (2, usize::MAX));
}

#[test]
fn different_matchings_may_have_the_same_hash() {
    let a = Matching::from_pairs(vec![(0, 3), (1, 2)]);
    let b = Matching::from_pairs(vec![(0, 2), (1, 3)]);
    assert!(a != b);
    assert_eq!(a.pair_sums(), b.pair_sums());
    assert_eq!(hash_of(&a), hash_of(&b));
}

#[test]
fn matchings_work_as_keys_of_a_hash_set() {
    let mut seen = HashSet::new();
    assert!(seen.insert(Matching::from_pairs(vec![(0, 3), (1, 4)])));
    assert!(!seen.insert(Matching::from_pairs(vec![(4, 1), (0, 3)])));
    assert!(seen.insert(Matching::from_pairs(vec![(0, 4), (1, 3)])));
    assert_eq!(seen.len(), 2);
}
