//! The tag store of one element.
use vstd::prelude::*;

use crate::tag::table::{
    table_contains, table_get, table_insert, table_keys, table_new, tag_entries, TagTable,
};
use crate::tag::{Tag, TagValue, TagView, MAX_TAG_CHARS};

verus! {

/// The tags of one element: each key once, with its value where it has one.
#[derive(Clone, Debug)]
pub struct TagStore {
    table: TagTable,
}

/// A key that occurred twice in the tags of one element.
#[derive(Clone, Debug)]
pub struct DuplicateKeyError {
    pub key: String,
}

/// Whether no two tags of the list have the same key.
pub open spec fn keys_distinct(tags: Seq<Tag>) -> bool {
    forall|i: int, j: int| 0 <= i < j < tags.len() ==> tags[i].key@ != tags[j].key@
}

/// Whether some earlier tag of the list has the key of the tag at `j`.
pub open spec fn repeats_key(tags: Seq<Tag>, j: int) -> bool {
    exists|i: int| 0 <= i < j && tags[i].key@ == tags[j].key@
}

/// The mapping that the list gives when its tags are written one after the
/// other, a later tag replacing an earlier one with the same key.
pub open spec fn tags_written(tags: Seq<Tag>) -> TagView
    decreases tags.len(),
{
    if tags.len() == 0 {
        Map::empty()
    } else {
        tags_written(tags.drop_last()).insert(tags.last().key@, tags.last().value.deep_view())
    }
}

/// The keys of the tags that repeat an earlier key, in the order of the list.
pub open spec fn repeated_keys(tags: Seq<Tag>) -> Seq<Seq<char>>
    decreases tags.len(),
{
    if tags.len() == 0 {
        Seq::empty()
    } else if repeats_key(tags, tags.len() - 1) {
        repeated_keys(tags.drop_last()).push(tags.last().key@)
    } else {
        repeated_keys(tags.drop_last())
    }
}

/// The keys of the written mapping are the keys of the list.
pub proof fn lemma_written_keys(tags: Seq<Tag>, key: Seq<char>)
    ensures
        tags_written(tags).contains_key(key) <==> exists|i: int|
            0 <= i < tags.len() && tags[i].key@ == key,
    decreases tags.len(),
{
    if tags.len() > 0 {
        lemma_written_keys(tags.drop_last(), key);
        if tags_written(tags).contains_key(key) {
            if tags.last().key@ == key {
                assert(tags[tags.len() - 1].key@ == key);
            } else {
                let i = choose|i: int|
                    0 <= i < tags.drop_last().len() && tags.drop_last()[i].key@ == key;
                assert(tags[i].key@ == key);
            }
        }
        if exists|i: int| 0 <= i < tags.len() && tags[i].key@ == key {
            let i = choose|i: int| 0 <= i < tags.len() && tags[i].key@ == key;
            if i < tags.len() - 1 {
                assert(tags.drop_last()[i].key@ == key);
            }
        }
    }
}

/// Where the keys are distinct, the written mapping gives each key the
/// value of its one tag.
pub proof fn lemma_written_distinct(tags: Seq<Tag>, i: int)
    requires
        keys_distinct(tags),
        0 <= i < tags.len(),
    ensures
        tags_written(tags).contains_key(tags[i].key@),
        tags_written(tags)[tags[i].key@] == tags[i].value.deep_view(),
    decreases tags.len(),
{
    if i < tags.len() - 1 {
        let front = tags.drop_last();
        assert(keys_distinct(front)) by {
            assert forall|a: int, b: int| 0 <= a < b < front.len() implies front[a].key@
                != front[b].key@ by {
                assert(tags[a].key@ != tags[b].key@);
            }
        }
        lemma_written_distinct(tags.drop_last(), i);
        assert(tags.drop_last()[i] == tags[i]);
        assert(tags[i].key@ != tags[tags.len() - 1].key@);
    }
}

/// Whether every key and every value of the mapping is within the length
/// that a tag allows.
pub open spec fn tags_fit(tags: TagView) -> bool {
    forall|key: Seq<char>| #[trigger]
        tags.contains_key(key) ==> key.len() <= MAX_TAG_CHARS && (tags[key] is Some
            ==> tags[key]->0.len() <= MAX_TAG_CHARS)
}

impl View for TagStore {
    type V = TagView;

    closed spec fn view(&self) -> TagView {
        tag_entries(self.table)
    }
}

impl Default for TagStore {
    fn default() -> (out: Self)
        ensures
            out@ == TagView::empty(),
    {
        TagStore::new()
    }
}

impl TagStore {
    /// A store without tags.
    pub fn new() -> (out: Self)
        ensures
            out@ == TagView::empty(),
    {
        let out = TagStore { table: table_new() };
        assert(out@ =~= TagView::empty());
        out
    }

    /// The store of the given tags, or the first key that repeats an earlier
    /// one. An element cannot have two tags with the same key, so a repeat
    /// is refused here; [`TagStore::from_pairs_last_wins`] is for feeds in
    /// which the last tag is to stand.
    pub fn from_pairs(pairs: Vec<Tag>) -> (out: Result<Self, DuplicateKeyError>)
        ensures
            out is Ok <==> keys_distinct(pairs@),
            out is Ok ==> out->Ok_0@ == tags_written(pairs@),
            out is Err ==> exists|j: int|
                0 <= j < pairs@.len() && keys_distinct(pairs@.take(j)) && repeats_key(pairs@, j)
                    && out->Err_0.key@ == (#[trigger] pairs@[j]).key@,
    {
        let ghost all = pairs@;
        let mut table = table_new();
        assert(tag_entries(table) =~= tags_written(all.take(0)));
        for tag in it: pairs
            invariant
                it.seq() == all,
                keys_distinct(all.take(it.index() as int)),
                tag_entries(table) == tags_written(all.take(it.index() as int)),
        {
            let ghost i = it.index() as int;
            let Tag { key, value } = tag;
            proof {
                lemma_written_keys(all.take(i), key@);
                assert(all.take(i + 1).drop_last() =~= all.take(i));
            }
            if table_contains(&table, key.as_str()) {
                proof {
                    let seen = all.take(i);
                    let w = choose|w: int| 0 <= w < seen.len() && seen[w].key@ == key@;
                    assert(all[w].key@ == all[i].key@);
                    assert(repeats_key(all, i));
                }
                return Err(DuplicateKeyError { key });
            }
            let _ = table_insert(&mut table, key, value);
            proof {
                let seen = all.take(i);
                let next = all.take(i + 1);
                assert forall|a: int, b: int| 0 <= a < b < next.len() implies next[a].key@
                    != next[b].key@ by {
                    if b < i {
                        assert(seen[a].key@ != seen[b].key@);
                    } else {
                        assert(seen[a].key@ == next[a].key@);
                    }
                }
            }
        }
        assert(all.take(all.len() as int) =~= all);
        Ok(TagStore { table })
    }

    /// The store of the given tags where a later tag replaces an earlier one
    /// with the same key, together with the keys that were replaced, once
    /// for each time.
    pub fn from_pairs_last_wins(pairs: Vec<Tag>) -> (out: (Self, Vec<String>))
        ensures
            out.0@ == tags_written(pairs@),
            out.1.deep_view() == repeated_keys(pairs@),
    {
        let ghost all = pairs@;
        let mut table = table_new();
        let mut replaced: Vec<String> = Vec::new();
        assert(tag_entries(table) =~= tags_written(all.take(0)));
        assert(replaced.deep_view() =~= repeated_keys(all.take(0)));
        for tag in it: pairs
            invariant
                it.seq() == all,
                tag_entries(table) == tags_written(all.take(it.index() as int)),
                replaced.deep_view() == repeated_keys(all.take(it.index() as int)),
        {
            let ghost i = it.index() as int;
            let ghost before = replaced.deep_view();
            let Tag { key, value } = tag;
            proof {
                lemma_written_keys(all.take(i), key@);
                assert(all.take(i + 1).drop_last() =~= all.take(i));
                let seen = all.take(i);
                let next = all.take(i + 1);
                if repeats_key(next, i) {
                    let w = choose|w: int| 0 <= w < i && next[w].key@ == next[i].key@;
                    assert(seen[w].key@ == key@);
                }
                if tags_written(seen).contains_key(key@) {
                    let w = choose|w: int| 0 <= w < seen.len() && seen[w].key@ == key@;
                    assert(next[w].key@ == next[i].key@);
                }
            }
            if table_contains(&table, key.as_str()) {
                replaced.push(key.clone());
                assert(replaced.deep_view() =~= before.push(key@));
            }
            let _ = table_insert(&mut table, key, value);
        }
        assert(all.take(all.len() as int) =~= all);
        (TagStore { table }, replaced)
    }

    /// The answer for `key`: absent, present without value, or the value.
    pub fn get<'a>(&'a self, key: &str) -> (found: TagValue<'a>)
        ensures
            found.answers(self@, key@),
    {
        match table_get(&self.table, key) {
            None => TagValue::Absent,
            Some(None) => TagValue::NoValue,
            Some(Some(value)) => TagValue::Value(value.as_str()),
        }
    }

    /// The tags of the store, each once, in no particular order. Making a
    /// store of them again gives this store.
    pub fn to_pairs(&self) -> (out: Vec<Tag>)
        ensures
            keys_distinct(out@),
            tags_written(out@) == self@,
    {
        let keys = table_keys(&self.table);
        let ghost all = keys@;
        let mut out: Vec<Tag> = Vec::new();
        for key in it: keys
            invariant
                it.seq() == all,
                out@.len() == it.index(),
                forall|i: int|
                    0 <= i < all.len() ==> self@.contains_key((#[trigger] all[i])@),
                forall|i: int|
                    0 <= i < out@.len() ==> (#[trigger] out@[i]).key@ == all[i]@
                        && out@[i].value.deep_view() == self@[all[i]@],
        {
            let value = match table_get(&self.table, key.as_str()) {
                Some(Some(text)) => Some(text.clone()),
                _ => None,
            };
            out.push(Tag { key, value });
        }
        proof {
            assert forall|key: Seq<char>| tags_written(out@).contains_key(key)
                == self@.contains_key(key) by {
                lemma_written_keys(out@, key);
                if self@.contains_key(key) {
                    let i = choose|i: int| 0 <= i < all.len() && (#[trigger] all[i])@ == key;
                    assert(out@[i].key@ == key);
                }
            }
            assert forall|key: Seq<char>| #[trigger] self@.contains_key(key) implies tags_written(
                out@,
            )[key] == self@[key] by {
                let i = choose|i: int| 0 <= i < all.len() && (#[trigger] all[i])@ == key;
                assert(out@[i].key@ == key);
                lemma_written_distinct(out@, i);
            }
            assert(tags_written(out@) =~= self@);
        }
        out
    }

    /// Whether every key and every value of the store is within the length
    /// that a tag allows.
    pub fn is_valid(&self) -> (yes: bool)
        ensures
            yes == tags_fit(self@),
    {
        let pairs = self.to_pairs();
        let mut i: usize = 0;
        while i < pairs.len()
            invariant
                i <= pairs.len(),
                keys_distinct(pairs@),
                tags_written(pairs@) == self@,
                forall|k: int| 0 <= k < i ==> (#[trigger] pairs@[k]).fits(),
            decreases pairs.len() - i,
        {
            if !pairs[i].is_valid() {
                proof {
                    lemma_written_distinct(pairs@, i as int);
                }
                return false;
            }
            i += 1;
        }
        proof {
            assert forall|key: Seq<char>| #[trigger] self@.contains_key(key) implies key.len()
                <= MAX_TAG_CHARS && (self@[key] is Some ==> self@[key]->0.len()
                <= MAX_TAG_CHARS) by {
                lemma_written_keys(pairs@, key);
                let k = choose|k: int| 0 <= k < pairs@.len() && pairs@[k].key@ == key;
                lemma_written_distinct(pairs@, k);
                assert(pairs@[k].fits());
            }
        }
        true
    }

    /// Whether the store has a tag with this key, with or without a value.
    pub fn has(&self, key: &str) -> (present: bool)
        ensures
            present == self@.contains_key(key@),
    {
        table_contains(&self.table, key)
    }
}

} // verus!
