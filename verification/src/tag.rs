//! Tags: the key/value metadata of an element, and the capability to query
//! it that nodes, ways and relations share.
use vstd::prelude::*;

pub mod access;
pub mod incline;
pub mod relation;
pub mod restriction;
pub mod store;
pub mod table;
pub mod travel_by;
pub mod way_type;

verus! {

/// Key for the kind of a junction.
pub const JUNCTION_TYPE: &'static str = "junction";

/// Key for the kind of a railway.
pub const RAIL_TYPE: &'static str = "railway";

/// Key for the type of a relation.
pub const TYPE: &'static str = "type";

/// Key for the name of an element.
pub const NAME: &'static str = "name";

/// The greatest number of characters that a key or a value may have.
pub const MAX_TAG_CHARS: usize = 255;

/// A tag as it arrives: a key and, where the tag has one, a value.
#[derive(Clone, Debug)]
pub struct Tag {
    pub key: String,
    pub value: Option<String>,
}

impl Tag {
    /// The tag with the given key and value.
    pub fn new(key: String, value: Option<String>) -> (out: Self)
        ensures
            out.key == key,
            out.value == value,
    {
        Tag { key, value }
    }

    /// Whether key and value are within the length that a tag allows.
    pub open spec fn fits(self) -> bool {
        &&& self.key@.len() <= MAX_TAG_CHARS
        &&& self.value is Some ==> self.value->0@.len() <= MAX_TAG_CHARS
    }

    /// Whether key and value are within the length that a tag allows.
    pub fn is_valid(&self) -> (yes: bool)
        ensures
            yes == self.fits(),
    {
        if self.key.as_str().unicode_len() > MAX_TAG_CHARS {
            return false;
        }
        match &self.value {
            Some(value) => value.as_str().unicode_len() <= MAX_TAG_CHARS,
            None => true,
        }
    }
}

/// What an element answers when asked for a tag.
///
/// A tag that is present without a value is not the same as a tag that is
/// absent, so the answer has three states.
#[derive(Clone, Copy, Debug)]
pub enum TagValue<'a> {
    /// The element has no tag with this key.
    Absent,
    /// The element has the tag, and the tag has no value.
    NoValue,
    /// The element has the tag with this value.
    Value(&'a str),
}

/// The tags of an element as a mapping from the characters of each key to
/// those of its value, `None` standing for a tag without value.
pub type TagView = Map<Seq<char>, Option<Seq<char>>>;

impl<'a> TagValue<'a> {
    /// Whether this is the right answer for `key` on an element with `tags`.
    pub open spec fn answers(self, tags: TagView, key: Seq<char>) -> bool {
        match self {
            TagValue::Absent => !tags.contains_key(key),
            TagValue::NoValue => tags.contains_key(key) && tags[key] is None,
            TagValue::Value(s) => tags.contains_key(key) && tags[key] == Some(s@),
        }
    }

    /// Whether the tag is there, with or without a value.
    pub fn is_present(&self) -> (present: bool)
        ensures
            present == !(*self is Absent),
    {
        match self {
            TagValue::Absent => false,
            _ => true,
        }
    }

    /// The value, for a tag that has one.
    pub fn value(&self) -> (out: Option<&'a str>)
        ensures
            out is Some <==> *self is Value,
            out is Some ==> *self == TagValue::Value(out->0),
    {
        match self {
            TagValue::Value(s) => Some(*s),
            _ => None,
        }
    }
}

/// The capability to answer tag queries, shared by nodes, ways and
/// relations, so that a caller need not know which kind it holds.
pub trait Tagged {
    /// The tags of this element.
    spec fn tag_view(&self) -> TagView;

    /// The answer for `key`: absent, present without value, or the value.
    fn get_tag<'a>(&'a self, key: &str) -> (found: TagValue<'a>)
        ensures
            found.answers(self.tag_view(), key@),
    ;

    /// Whether the element has a tag with this key, with or without a value.
    fn has_tag(&self, key: &str) -> (present: bool)
        ensures
            present == self.tag_view().contains_key(key@),
    ;
}

} // verus!
