//! An insertion-ordered mapping from element id to element.
use vstd::prelude::*;

use crate::element::{by_id, first_ids, lemma_by_id, Element};
use crate::index::{index_contains, index_entries, index_get, index_insert, index_new, IdIndex};
use crate::ElementID;

verus! {

/// A mapping keyed by element id that remembers the order in which its keys
/// first arrived.
///
/// The values live in a vector; a hash index finds the slot of an id. Writing
/// an id a second time replaces the value in its slot and leaves the order of
/// the keys alone.
#[derive(Debug)]
pub struct IdMap<T> {
    ids: Vec<ElementID>,
    items: Vec<T>,
    index: IdIndex,
}

impl<T> View for IdMap<T> {
    type V = Map<ElementID, T>;

    closed spec fn view(&self) -> Map<ElementID, T> {
        Map::new(
            |id: ElementID| index_entries(self.index).contains_key(id),
            |id: ElementID| self.items@[index_entries(self.index)[id] as int],
        )
    }
}

impl<T> Default for IdMap<T> {
    fn default() -> (out: Self)
        ensures
            out@ == Map::<ElementID, T>::empty(),
            out.ids() == Seq::<ElementID>::empty(),
    {
        IdMap::new()
    }
}

impl<T> IdMap<T> {
    #[verifier::type_invariant]
    spec fn inv(self) -> bool {
        &&& self.ids@.len() == self.items@.len()
        &&& forall|i: int|
            0 <= i < self.ids@.len() ==> index_entries(self.index).contains_key(
                #[trigger] self.ids@[i],
            ) && index_entries(self.index)[self.ids@[i]] == i
        &&& forall|id: ElementID| #[trigger]
            index_entries(self.index).contains_key(id) ==> index_entries(self.index)[id]
                < self.ids@.len() && self.ids@[index_entries(self.index)[id] as int] == id
    }

    /// The keys in the order in which they first arrived.
    pub closed spec fn ids(&self) -> Seq<ElementID> {
        self.ids@
    }

    /// An empty mapping.
    pub fn new() -> (out: Self)
        ensures
            out@ == Map::<ElementID, T>::empty(),
            out.ids() == Seq::<ElementID>::empty(),
    {
        let out = IdMap { ids: Vec::new(), items: Vec::new(), index: index_new() };
        assert(out@ =~= Map::<ElementID, T>::empty());
        out
    }

    /// Number of keys.
    pub fn len(&self) -> (n: usize)
        ensures
            n == self.ids().len(),
    {
        self.ids.len()
    }

    /// The key at place `i` of the order.
    pub fn id_at(&self, i: usize) -> (id: ElementID)
        requires
            i < self.ids().len(),
        ensures
            id == self.ids()[i as int],
            self@.contains_key(id),
    {
        proof {
            use_type_invariant(self);
        }
        self.ids[i]
    }

    /// The value of the key at place `i` of the order.
    pub fn at(&self, i: usize) -> (item: &T)
        requires
            i < self.ids().len(),
        ensures
            self@.contains_key(self.ids()[i as int]),
            *item == self@[self.ids()[i as int]],
    {
        proof {
            use_type_invariant(self);
        }
        &self.items[i]
    }

    /// Whether `id` is a key.
    pub fn contains(&self, id: ElementID) -> (found: bool)
        ensures
            found == self@.contains_key(id),
    {
        index_contains(&self.index, id)
    }

    /// The value stored under `id`.
    pub fn get(&self, id: ElementID) -> (found: Option<&T>)
        ensures
            found is Some <==> self@.contains_key(id),
            found is Some ==> *found->0 == self@[id],
    {
        proof {
            use_type_invariant(self);
        }
        match index_get(&self.index, id) {
            Some(pos) => Some(&self.items[pos]),
            None => None,
        }
    }

    /// Stores `item` under `id`. A new key goes to the end of the order; a
    /// known key keeps its place and gets the new value.
    pub fn insert(&mut self, id: ElementID, item: T)
        ensures
            final(self)@ == old(self)@.insert(id, item),
            final(self).ids() == if old(self)@.contains_key(id) {
                old(self).ids()
            } else {
                old(self).ids().push(id)
            },
    {
        proof {
            use_type_invariant(&*self);
        }
        let mut taken = IdMap::new();
        core::mem::swap(self, &mut taken);
        let IdMap { mut ids, mut items, mut index } = taken;
        match index_get(&index, id) {
            Some(pos) => {
                items.set(pos, item);
            },
            None => {
                let pos = ids.len();
                ids.push(id);
                items.push(item);
                let _ = index_insert(&mut index, id, pos);
            },
        }
        *self = IdMap { ids, items, index };
        assert(self@ =~= old(self)@.insert(id, item));
    }
}

impl<T: Element> IdMap<T> {
    /// The mapping of the given elements, each under its own id. Where an
    /// id occurs more than once, the last element with it stays.
    pub fn from_elements(items: Vec<T>) -> (out: Self)
        ensures
            out@ == by_id(items@),
            out.ids() == first_ids(items@),
    {
        let ghost all = items@;
        let mut out: IdMap<T> = IdMap::new();
        for item in it: items
            invariant
                it.seq() == all,
                out@ == by_id(all.take(it.index() as int)),
                out.ids() == first_ids(all.take(it.index() as int)),
        {
            let ghost i = it.index() as int;
            proof {
                assert(all.take(i + 1).drop_last() =~= all.take(i));
                lemma_by_id(all.take(i), item.ident());
            }
            let id = item.id();
            out.insert(id, item);
        }
        assert(all.take(all.len() as int) =~= all);
        out
    }
}

impl<T: Clone> Clone for IdMap<T> {
    /// A mapping with the same keys in the same order, each with a clone of
    /// its value.
    fn clone(&self) -> (out: Self)
        ensures
            out.ids() == self.ids(),
            out@.dom() == self@.dom(),
            forall|id: ElementID| #[trigger] self@.contains_key(id) ==> cloned(self@[id], out@[id]),
    {
        proof {
            use_type_invariant(self);
        }
        let ids = self.ids.clone();
        let items = self.items.clone();
        let index = self.index.clone();
        assert(ids@ =~= self.ids@);
        let out = IdMap { ids, items, index };
        assert(out@.dom() =~= self@.dom());
        out
    }
}

} // verus!
