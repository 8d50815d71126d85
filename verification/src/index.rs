//! Lookup from element id to a position, kept in a `hashbrown::HashMap`.
//!
//! Verus does not look into the hash map. What it holds is named by
//! [`index_entries`], and each call into it goes through one small function
//! below whose contract restates what hashbrown documents for that method.
//! Everything built on top is proved against those contracts only.
use vstd::prelude::*;

use crate::ElementID;

verus! {

/// A `hashbrown::HashMap` from element id to position.
#[derive(Debug)]
#[verifier::external_body]
pub struct IdIndex {
    inner: hashbrown::HashMap<ElementID, usize>,
}

/// The entries that an [`IdIndex`] holds.
pub uninterp spec fn index_entries(m: IdIndex) -> Map<ElementID, usize>;

/// `hashbrown::HashMap::new`: a map without entries.
#[verifier::external_body]
pub(crate) fn index_new() -> (out: IdIndex)
    ensures
        forall|id: ElementID| !index_entries(out).contains_key(id),
{
    IdIndex { inner: hashbrown::HashMap::new() }
}

/// `hashbrown::HashMap::insert`: afterwards `id` maps to `pos` and every other
/// entry is as before; the position that `id` had before, if any, is returned.
#[verifier::external_body]
pub(crate) fn index_insert(m: &mut IdIndex, id: ElementID, pos: usize) -> (prev: Option<usize>)
    ensures
        index_entries(*final(m)) == index_entries(*old(m)).insert(id, pos),
        prev is Some <==> index_entries(*old(m)).contains_key(id),
        prev is Some ==> prev->0 == index_entries(*old(m))[id],
{
    m.inner.insert(id, pos)
}

/// `hashbrown::HashMap::get`: the position stored for `id`, or `None` where
/// the map has no entry for it.
#[verifier::external_body]
pub(crate) fn index_get(m: &IdIndex, id: ElementID) -> (pos: Option<usize>)
    ensures
        pos is Some <==> index_entries(*m).contains_key(id),
        pos is Some ==> pos->0 == index_entries(*m)[id],
{
    m.inner.get(&id).copied()
}

/// `hashbrown::HashMap::contains_key`: whether the map has an entry for `id`.
#[verifier::external_body]
pub(crate) fn index_contains(m: &IdIndex, id: ElementID) -> (found: bool)
    ensures
        found == index_entries(*m).contains_key(id),
{
    m.inner.contains_key(&id)
}

/// `Clone` of `hashbrown::HashMap`: a map with the same entries.
#[verifier::external_body]
pub(crate) fn index_clone(m: &IdIndex) -> (out: IdIndex)
    ensures
        index_entries(out) == index_entries(*m),
{
    IdIndex { inner: m.inner.clone() }
}

impl Clone for IdIndex {
    fn clone(&self) -> (out: Self)
        ensures
            index_entries(out) == index_entries(*self),
    {
        index_clone(self)
    }
}

} // verus!
