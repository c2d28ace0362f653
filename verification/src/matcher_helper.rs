//! Sets of directional points.

use std::slice::Iter;
use vstd::prelude::*;
use vstd::std_specs::iter::IteratorSpec;
use vstd::std_specs::slice::into_iter_elts;

verus! {

/// A point with a direction. `P` is the type of a pair of coordinates.
#[derive(Clone, Copy, Debug)]
pub struct MatchItem<P> {
    /// Tells the item from the others of its set.
    pub id: usize,
    pub point: P,
    pub direction: P,
}

/// An ordered collection of match items. An item gets its id from the set
/// (`from_match_items_and_set_ids`, `push_and_set_id`), and then no other item
/// of the set has it, or it keeps the id it comes with (`push_as_is`), and
/// then the caller sees to it that no other item has it.
#[derive(Debug)]
pub struct MatchItemSet<P> {
    pub items: Vec<MatchItem<P>>,
}

impl<P> MatchItem<P> {
    /// An item with id 0.
    pub fn new_with_default_id(point: P, direction: P) -> (item: Self)
        ensures
            item.id == 0,
            item.point == point,
            item.direction == direction,
    {
        MatchItem { id: 0, point, direction }
    }
}

impl<P> View for MatchItemSet<P> {
    type V = Seq<MatchItem<P>>;

    open spec fn view(&self) -> Seq<MatchItem<P>> {
        self.items@
    }
}

/// The id of each item is its position.
pub open spec fn ids_sequential<P>(items: Seq<MatchItem<P>>) -> bool {
    forall|i: int| 0 <= i < items.len() ==> (#[trigger] items[i]).id == i
}

/// No two items have the same id.
pub open spec fn ids_unique<P>(items: Seq<MatchItem<P>>) -> bool {
    forall|i: int, j: int|
        0 <= i < items.len() && 0 <= j < items.len() && i != j ==> (#[trigger] items[i]).id != (
        #[trigger] items[j]).id
}

/// The items as given, but for their ids.
pub open spec fn same_points<P>(items: Seq<MatchItem<P>>, given: Seq<MatchItem<P>>) -> bool {
    &&& items.len() == given.len()
    &&& forall|i: int|
        0 <= i < items.len() ==> (#[trigger] items[i]).point == given[i].point
            && items[i].direction == given[i].direction
}

/// The largest id in use; -1 where there is no item.
pub open spec fn largest_id<P>(items: Seq<MatchItem<P>>) -> int
    decreases items.len(),
{
    if items.len() == 0 {
        -1
    } else if largest_id(items.drop_last()) >= items.last().id {
        largest_id(items.drop_last())
    } else {
        items.last().id as int
    }
}

/// The id that the set gives to its next item: one more than the largest id
/// in use, 0 in an empty set.
pub open spec fn fresh_id<P>(items: Seq<MatchItem<P>>) -> int {
    largest_id(items) + 1
}

/// No item has an id beyond the largest, and the largest one is the id of an
/// item or -1.
pub proof fn lemma_largest_id<P>(items: Seq<MatchItem<P>>)
    ensures
        -1 <= largest_id(items),
        forall|i: int| 0 <= i < items.len() ==> (#[trigger] items[i]).id <= largest_id(items),
        items.len() > 0 ==> exists|i: int|
            0 <= i < items.len() && (#[trigger] items[i]).id == largest_id(items),
    decreases items.len(),
{
    if items.len() > 0 {
        let shorter = items.drop_last();
        lemma_largest_id(shorter);
        assert forall|i: int| 0 <= i < items.len() implies (#[trigger] items[i]).id <= largest_id(
            items,
        ) by {
            if i < shorter.len() {
                assert(shorter[i] == items[i]);
            }
        }
        if largest_id(shorter) >= items.last().id && shorter.len() > 0 {
            let i = choose|i: int|
                0 <= i < shorter.len() && (#[trigger] shorter[i]).id == largest_id(shorter);
            assert(items[i] == shorter[i]);
        } else {
            assert(items[items.len() - 1].id == largest_id(items));
        }
    }
}

/// The fresh id is the id of no item.
pub proof fn lemma_fresh_id_is_fresh<P>(items: Seq<MatchItem<P>>)
    ensures
        forall|i: int| 0 <= i < items.len() ==> (#[trigger] items[i]).id != fresh_id(items),
{
    lemma_largest_id(items);
}

/// Where the id of each item is its position, the fresh id is the number of
/// items.
pub proof fn lemma_fresh_id_sequential<P>(items: Seq<MatchItem<P>>)
    requires
        ids_sequential(items),
    ensures
        fresh_id(items) == items.len(),
    decreases items.len(),
{
    if items.len() > 0 {
        let shorter = items.drop_last();
        assert forall|i: int| 0 <= i < shorter.len() implies (#[trigger] shorter[i]).id == i by {
            assert(shorter[i] == items[i]);
        }
        lemma_fresh_id_sequential(shorter);
        assert(items[items.len() - 1].id == items.len() - 1);
    }
}

/// Ids given out by position are unique.
pub proof fn lemma_sequential_ids_unique<P>(items: Seq<MatchItem<P>>)
    requires
        ids_sequential(items),
    ensures
        ids_unique(items),
{
}

impl<P> Default for MatchItemSet<P> {
    fn default() -> (set: Self)
        ensures
            set@.len() == 0,
    {
        MatchItemSet { items: Vec::new() }
    }
}

impl<P> MatchItemSet<P> {
    /// The empty set.
    pub fn new() -> (set: Self)
        ensures
            set@.len() == 0,
    {
        MatchItemSet { items: Vec::new() }
    }

    /// The set of the given items, each with its position as its id.
    pub fn from_match_items_and_set_ids(items: Vec<MatchItem<P>>) -> (set: Self)
        ensures
            same_points(set@, items@),
            ids_sequential(set@),
    {
        let mut numbered = items;
        let ghost given = numbered@;
        let mut i: usize = 0;
        while i < numbered.len()
            invariant
                i <= numbered@.len(),
                same_points(numbered@, given),
                forall|k: int| 0 <= k < i ==> (#[trigger] numbered@[k]).id == k,
            decreases numbered@.len() - i,
        {
            let ghost before = numbered@;
            numbered[i].id = i;
            assert(forall|k: int|
                0 <= k < numbered@.len() && k != i ==> #[trigger] numbered@[k] == before[k]);
            i += 1;
        }
        MatchItemSet { items: numbered }
    }

    /// Number of items.
    pub fn len(&self) -> (n: usize)
        ensures
            n == self@.len(),
    {
        self.items.len()
    }

    pub fn is_empty(&self) -> (empty: bool)
        ensures
            empty == (self@.len() == 0),
    {
        self.items.len() == 0
    }

    /// The item at position `index`.
    pub fn get(&self, index: usize) -> (item: &MatchItem<P>)
        requires
            index < self@.len(),
        ensures
            *item == self@[index as int],
    {
        &self.items[index]
    }

    /// The items in order.
    pub fn iter(&self) -> (items: Iter<'_, MatchItem<P>>)
        ensures
            into_iter_elts(items) == self@,
            IteratorSpec::decrease(&items) is Some,
            IteratorSpec::initial_value_relation(&items, &items),
    {
        self.items.iter()
    }

    /// Takes the item at position `index` out; the items after it move up.
    pub fn remove(&mut self, index: usize) -> (item: MatchItem<P>)
        requires
            index < old(self)@.len(),
        ensures
            item == old(self)@[index as int],
            final(self)@ == old(self)@.remove(index as int),
    {
        self.items.remove(index)
    }

    /// Appends the item with an id that no item of the set has: one more than
    /// the largest id in use, 0 in an empty set. In a set whose ids are the
    /// positions that is the number of items so far, and the ids still are the
    /// positions; in a set whose ids are unique they still are.
    pub fn push_and_set_id(&mut self, match_item: MatchItem<P>)
        requires
            forall|i: int| 0 <= i < old(self)@.len() ==> (#[trigger] old(self)@[i]).id < usize::MAX,
        ensures
            final(self)@ == old(self)@.push(
                MatchItem {
                    id: fresh_id(old(self)@) as usize,
                    point: match_item.point,
                    direction: match_item.direction,
                },
            ),
            final(self)@.last().id == fresh_id(old(self)@),
            forall|i: int|
                0 <= i < old(self)@.len() ==> (#[trigger] old(self)@[i]).id != fresh_id(
                    old(self)@,
                ),
            ids_unique(old(self)@) ==> ids_unique(final(self)@),
            ids_sequential(old(self)@) ==> final(self)@.last().id == old(self)@.len(),
            ids_sequential(old(self)@) ==> ids_sequential(final(self)@),
    {
        let mut id: usize = 0;
        let mut i: usize = 0;
        proof {
            assert forall|k: int| 0 <= k < self.items@.len() implies (
            #[trigger] self.items@[k]).id < usize::MAX by {
                assert(self@[k].id < usize::MAX);
            }
            assert(self.items@.take(0) =~= Seq::empty());
        }
        while i < self.items.len()
            invariant
                i <= self.items@.len(),
                forall|k: int|
                    0 <= k < self.items@.len() ==> (#[trigger] self.items@[k]).id < usize::MAX,
                id == fresh_id(self.items@.take(i as int)),
            decreases self.items@.len() - i,
        {
            proof {
                let longer = self.items@.take(i + 1);
                assert(longer.drop_last() =~= self.items@.take(i as int));
                assert(longer.last() == self.items@[i as int]);
            }
            if self.items[i].id >= id {
                id = self.items[i].id + 1;
            }
            i += 1;
        }
        proof {
            assert(self.items@.take(self.items@.len() as int) =~= self.items@);
            lemma_largest_id(self.items@);
            lemma_fresh_id_is_fresh(self.items@);
            if ids_sequential(self.items@) {
                lemma_fresh_id_sequential(self.items@);
            }
        }
        let mut match_item = match_item;
        match_item.id = id;
        self.items.push(match_item);
    }

    /// Appends the item with the id that it has. In a set whose ids are
    /// unique and differ from that id, they still are.
    pub fn push_as_is(&mut self, match_item: MatchItem<P>)
        ensures
            final(self)@ == old(self)@.push(match_item),
            ids_unique(old(self)@) && (forall|i: int|
                0 <= i < old(self)@.len() ==> (#[trigger] old(self)@[i]).id != match_item.id)
                ==> ids_unique(final(self)@),
    {
        self.items.push(match_item)
    }
}

} // verus!
