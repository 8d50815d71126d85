//! Relations: ordered groups of elements, each with a role.
use vstd::prelude::*;

use crate::item_type::ElementKind;
use crate::tag::store::TagStore;
use crate::tag::{TagValue, TagView, Tagged};
use crate::element::Element;
use crate::{ElementID, Timestamp};

pub mod role;

verus! {

/// One entry of a relation: the element it refers to, by kind and id, and
/// the part that the element plays in the relation.
///
/// The role is free text. The well-known roles are listed in [`role`].
#[derive(Clone, Debug)]
pub struct Member {
    pub kind: ElementKind,
    pub id: ElementID,
    pub role: String,
}

impl Member {
    /// The member that refers to the given element in the given role.
    pub fn new(kind: ElementKind, id: ElementID, role: String) -> (out: Self)
        ensures
            out.kind == kind,
            out.id == id,
            out.role == role,
    {
        Member { kind, id, role }
    }
}

/// An ordered list of members, which may be nodes, ways and other
/// relations, used to say how elements belong together.
#[derive(Clone, Debug)]
pub struct Relation {
    pub members: Vec<Member>,
    pub id: ElementID,
    pub timestamp: Timestamp,
    pub tags: TagStore,
}

impl Relation {
    /// A relation of the given members with the given tags.
    pub fn new(id: ElementID, members: Vec<Member>, tags: TagStore) -> (out: Self)
        ensures
            out.id == id,
            out.members == members,
            out.timestamp is None,
            out.tags == tags,
    {
        Relation { members, id, timestamp: None, tags }
    }
}

impl Default for Relation {
    fn default() -> (out: Self)
        ensures
            out.id == 0,
            out.members@.len() == 0,
            out.timestamp is None,
            out.tags@ == TagView::empty(),
    {
        Relation::new(0, Vec::new(), TagStore::new())
    }
}

impl Element for Relation {
    open spec fn ident(&self) -> ElementID {
        self.id
    }

    fn id(&self) -> (id: ElementID) {
        self.id
    }
}

impl Tagged for Relation {
    open spec fn tag_view(&self) -> TagView {
        self.tags@
    }

    fn get_tag<'a>(&'a self, key: &str) -> (found: TagValue<'a>) {
        self.tags.get(key)
    }

    fn has_tag(&self, key: &str) -> (present: bool) {
        self.tags.has(key)
    }
}

} // verus!
