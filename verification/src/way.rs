//! Ways: ordered lists of nodes.
use vstd::prelude::*;

use crate::tag::store::TagStore;
use crate::tag::{TagValue, TagView, Tagged};
use crate::element::Element;
use crate::{ElementID, Timestamp};

verus! {

/// An ordered list of nodes, named by their ids.
///
/// A way normally has between 2 and 2000 nodes. Faulty ways with one node or
/// none exist and are kept as they are. The nodes themselves belong to
/// whatever holds the way; the way only refers to them.
#[derive(Clone, Debug)]
pub struct Way {
    pub nodes: Vec<ElementID>,
    pub id: ElementID,
    pub name: Option<String>,
    pub timestamp: Timestamp,
    pub tags: Option<TagStore>,
}

impl Way {
    /// A way is closed when it has a node and its last node is its first.
    pub open spec fn closed(self) -> bool {
        self.nodes@.len() >= 1 && self.nodes@.first() == self.nodes@.last()
    }

    /// An untagged, unnamed way through the given nodes.
    pub fn new(id: ElementID, nodes: Vec<ElementID>) -> (out: Self)
        ensures
            out.id == id,
            out.nodes == nodes,
            out.name is None,
            out.timestamp is None,
            out.tags is None,
    {
        Way { nodes, id, name: None, timestamp: None, tags: None }
    }

    /// Whether the way is closed, and so may stand for an area.
    pub fn is_closed(&self) -> (yes: bool)
        ensures
            yes == self.closed(),
    {
        let n = self.nodes.len();
        n >= 1 && self.nodes[0] == self.nodes[n - 1]
    }

    /// Whether the way has no nodes at all, which marks it as faulty.
    pub fn is_empty(&self) -> (yes: bool)
        ensures
            yes == (self.nodes@.len() == 0),
    {
        self.nodes.len() == 0
    }
}

impl Default for Way {
    fn default() -> (out: Self)
        ensures
            out.id == 0,
            out.nodes@.len() == 0,
            out.name is None,
            out.timestamp is None,
            out.tags is None,
    {
        Way::new(0, Vec::new())
    }
}

impl Element for Way {
    open spec fn ident(&self) -> ElementID {
        self.id
    }

    fn id(&self) -> (id: ElementID) {
        self.id
    }
}

impl Tagged for Way {
    open spec fn tag_view(&self) -> TagView {
        match self.tags {
            Some(tags) => tags@,
            None => Map::empty(),
        }
    }

    fn get_tag<'a>(&'a self, key: &str) -> (found: TagValue<'a>) {
        match &self.tags {
            Some(tags) => tags.get(key),
            None => TagValue::Absent,
        }
    }

    fn has_tag(&self, key: &str) -> (present: bool) {
        match &self.tags {
            Some(tags) => tags.has(key),
            None => false,
        }
    }
}

} // verus!
