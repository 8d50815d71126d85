//! The hash table under a tag store, a `hashbrown::HashMap`.
//!
//! Verus does not look into the hash map. What it holds is named by
//! [`tag_entries`], keyed by the characters of each key, and each call into
//! it goes through one small function below whose contract restates what
//! hashbrown documents for that method.
use vstd::prelude::*;


verus! {

/// A `hashbrown::HashMap` from tag key to optional tag value.
#[derive(Debug)]
#[verifier::external_body]
pub struct TagTable {
    inner: hashbrown::HashMap<String, Option<String>>,
}

/// The entries that a [`TagTable`] holds: for each key the value, or `None`
/// for a key that was stored without one.
pub uninterp spec fn tag_entries(t: TagTable) -> Map<Seq<char>, Option<Seq<char>>>;

/// `hashbrown::HashMap::new`: a map without entries.
#[verifier::external_body]
pub(crate) fn table_new() -> (out: TagTable)
    ensures
        forall|key: Seq<char>| !tag_entries(out).contains_key(key),
{
    TagTable { inner: hashbrown::HashMap::new() }
}

/// `hashbrown::HashMap::insert`: afterwards `key` maps to `value` and every
/// other entry is as before; the value that `key` had before, if any, is
/// returned.
#[verifier::external_body]
pub(crate) fn table_insert(t: &mut TagTable, key: String, value: Option<String>) -> (prev: Option<
    Option<String>,
>)
    ensures
        tag_entries(*final(t)) == tag_entries(*old(t)).insert(key@, value.deep_view()),
        prev is Some <==> tag_entries(*old(t)).contains_key(key@),
        prev is Some ==> prev->0.deep_view() == tag_entries(*old(t))[key@],
{
    t.inner.insert(key, value)
}

/// `hashbrown::HashMap::get`: the value stored for `key`, or `None` where the
/// map has no entry for it.
#[verifier::external_body]
pub(crate) fn table_get<'a>(t: &'a TagTable, key: &str) -> (found: Option<&'a Option<String>>)
    ensures
        found is Some <==> tag_entries(*t).contains_key(key@),
        found is Some ==> found->0.deep_view() == tag_entries(*t)[key@],
{
    t.inner.get(key)
}

/// `hashbrown::HashMap::contains_key`: whether the map has an entry for
/// `key`.
#[verifier::external_body]
pub(crate) fn table_contains(t: &TagTable, key: &str) -> (found: bool)
    ensures
        found == tag_entries(*t).contains_key(key@),
{
    t.inner.contains_key(key)
}

/// `hashbrown::HashMap::keys`: every key once, in an order that the map
/// does not promise. Whatever the order, no key comes twice, every key
/// listed is a key of the map, and every key of the map is listed.
#[verifier::external_body]
pub(crate) fn table_keys(t: &TagTable) -> (out: Vec<String>)
    ensures
        forall|i: int, j: int| 0 <= i < j < out@.len() ==> out@[i]@ != out@[j]@,
        forall|i: int| 0 <= i < out@.len() ==> tag_entries(*t).contains_key((#[trigger] out@[i])@),
        forall|key: Seq<char>| #[trigger]
            tag_entries(*t).contains_key(key) ==> exists|i: int|
                0 <= i < out@.len() && (#[trigger] out@[i])@ == key,
{
    t.inner.keys().cloned().collect()
}

/// `Clone` of `hashbrown::HashMap`: a map with the same entries.
#[verifier::external_body]
pub(crate) fn table_clone(t: &TagTable) -> (out: TagTable)
    ensures
        tag_entries(out) == tag_entries(*t),
{
    TagTable { inner: t.inner.clone() }
}

impl Clone for TagTable {
    fn clone(&self) -> (out: Self)
        ensures
            tag_entries(out) == tag_entries(*self),
    {
        table_clone(self)
    }
}

} // verus!
