//! What nodes, ways and relations have in common: an id within their kind.
use vstd::prelude::*;

use crate::index::{index_entries, index_insert, index_new, IdIndex};
use crate::ElementID;

verus! {

/// An element with an id.
pub trait Element {
    /// The id of this element.
    spec fn ident(&self) -> ElementID;

    /// The id of this element.
    fn id(&self) -> (id: ElementID)
        ensures
            id == self.ident(),
    ;
}

/// Whether some element of the sequence has this id.
pub open spec fn has_id<T: Element>(items: Seq<T>, id: ElementID) -> bool {
    exists|i: int| 0 <= i < items.len() && (#[trigger] items[i]).ident() == id
}

/// Whether the index knows exactly the ids of the sequence, and leads from
/// each to a place where an element with that id stands.
pub open spec fn indexes<T: Element>(ix: IdIndex, items: Seq<T>) -> bool {
    &&& forall|id: ElementID| #[trigger]
        index_entries(ix).contains_key(id) <==> has_id(items, id)
    &&& forall|id: ElementID| #[trigger]
        index_entries(ix).contains_key(id) ==> index_entries(ix)[id] < items.len()
            && items[index_entries(ix)[id] as int].ident() == id
}

/// The index of a list of elements by id: it knows exactly the ids of the
/// list and leads from each to a place where an element with it stands.
pub fn index_of<T: Element>(items: &Vec<T>) -> (ix: IdIndex)
    ensures
        indexes(ix, items@),
{
    let mut ix = index_new();
    let mut i: usize = 0;
    while i < items.len()
        invariant
            i <= items.len(),
            indexes(ix, items@.take(i as int)),
        decreases items.len() - i,
    {
        let id = items[i].id();
        let ghost before = ix;
        let ghost seen = items@.take(i as int);
        let ghost next = items@.take(i + 1);
        let _ = index_insert(&mut ix, id, i);
        proof {
            assert(next[i as int] == items@[i as int]);
            assert forall|k: ElementID| #[trigger]
                index_entries(ix).contains_key(k) <==> has_id(next, k) by {
                if has_id(next, k) && k != id {
                    let w = choose|w: int| 0 <= w < next.len() && (#[trigger] next[w]).ident() == k;
                    assert(seen[w].ident() == k);
                }
                if index_entries(before).contains_key(k) {
                    let w = choose|w: int| 0 <= w < seen.len() && (#[trigger] seen[w]).ident() == k;
                    assert(next[w].ident() == k);
                }
            }
            assert forall|k: ElementID| #[trigger]
                index_entries(ix).contains_key(k) implies index_entries(ix)[k] < next.len()
                && next[index_entries(ix)[k] as int].ident() == k by {
                if k != id {
                    assert(index_entries(before).contains_key(k));
                    assert(seen[index_entries(before)[k] as int] == next[index_entries(
                        before,
                    )[k] as int]);
                }
            }
        }
        i += 1;
    }
    assert(items@.take(items.len() as int) =~= items@);
    ix
}

/// The mapping that the elements give when they are stored by id one after
/// the other, a later element replacing an earlier one with the same id.
pub open spec fn by_id<T: Element>(items: Seq<T>) -> Map<ElementID, T>
    decreases items.len(),
{
    if items.len() == 0 {
        Map::empty()
    } else {
        by_id(items.drop_last()).insert(items.last().ident(), items.last())
    }
}

/// The ids of the elements in the order in which each occurs first.
pub open spec fn first_ids<T: Element>(items: Seq<T>) -> Seq<ElementID>
    decreases items.len(),
{
    if items.len() == 0 {
        Seq::empty()
    } else if has_id(items.drop_last(), items.last().ident()) {
        first_ids(items.drop_last())
    } else {
        first_ids(items.drop_last()).push(items.last().ident())
    }
}

/// Storing elements by id keeps exactly their ids, and under each id an
/// element of the list that has this id.
pub proof fn lemma_by_id<T: Element>(items: Seq<T>, id: ElementID)
    ensures
        by_id(items).contains_key(id) <==> has_id(items, id),
        by_id(items).contains_key(id) ==> by_id(items)[id].ident() == id && items.contains(
            by_id(items)[id],
        ),
    decreases items.len(),
{
    if items.len() > 0 {
        let front = items.drop_last();
        lemma_by_id(front, id);
        if has_id(items, id) {
            let i = choose|i: int| 0 <= i < items.len() && (#[trigger] items[i]).ident() == id;
            if i < front.len() {
                assert(front[i].ident() == id);
            }
        }
        if has_id(front, id) {
            let i = choose|i: int| 0 <= i < front.len() && (#[trigger] front[i]).ident() == id;
            assert(items[i].ident() == id);
        }
        if by_id(items).contains_key(id) {
            if items.last().ident() == id {
                assert(items[items.len() - 1] == by_id(items)[id]);
            } else {
                let found = by_id(front)[id];
                let i = choose|i: int| 0 <= i < front.len() && front[i] == found;
                assert(items[i] == found);
            }
        }
    }
}

/// Where no id occurs twice, each element is stored under its id.
pub proof fn lemma_by_id_distinct<T: Element>(items: Seq<T>, i: int)
    requires
        0 <= i < items.len(),
        forall|a: int, b: int|
            0 <= a < b < items.len() ==> (#[trigger] items[a]).ident() != (
            #[trigger] items[b]).ident(),
    ensures
        by_id(items).contains_key(items[i].ident()),
        by_id(items)[items[i].ident()] == items[i],
    decreases items.len(),
{
    if i < items.len() - 1 {
        let front = items.drop_last();
        assert forall|a: int, b: int| 0 <= a < b < front.len() implies (#[trigger] front[a]).ident()
            != (#[trigger] front[b]).ident() by {
            assert(items[a].ident() != items[b].ident());
        }
        lemma_by_id_distinct(front, i);
        assert(front[i] == items[i]);
        assert(items[i].ident() != items[items.len() - 1].ident());
    }
}

} // verus!
