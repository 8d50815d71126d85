//! The raw element pool: what a decoder hands over before anything has been
//! checked or cut to a box.
use vstd::prelude::*;

use crate::element::has_id;
use crate::item_type::ElementKind;
use crate::node::Node;
use crate::relation::{Member, Relation};
use crate::way::Way;
use crate::ElementID;

verus! {

/// Three flat collections of elements. Ways and relations name what they
/// refer to by id, and nothing says yet that those ids are in the pool.
#[derive(Clone, Debug)]
pub struct Pool {
    pub nodes: Vec<Node>,
    pub ways: Vec<Way>,
    pub relations: Vec<Relation>,
}

/// A pool as three sequences.
pub ghost struct PoolView {
    pub nodes: Seq<Node>,
    pub ways: Seq<Way>,
    pub relations: Seq<Relation>,
}

impl View for Pool {
    type V = PoolView;

    open spec fn view(&self) -> PoolView {
        PoolView { nodes: self.nodes@, ways: self.ways@, relations: self.relations@ }
    }
}

impl PoolView {
    /// Whether the pool has a node with this id.
    pub open spec fn has_node(self, id: ElementID) -> bool {
        has_id(self.nodes, id)
    }

    /// Whether the pool has a way with this id.
    pub open spec fn has_way(self, id: ElementID) -> bool {
        has_id(self.ways, id)
    }

    /// Whether the pool has a relation with this id.
    pub open spec fn has_relation(self, id: ElementID) -> bool {
        has_id(self.relations, id)
    }

    /// Whether the pool has an element of this kind with this id.
    pub open spec fn has(self, kind: ElementKind, id: ElementID) -> bool {
        match kind {
            ElementKind::Node => self.has_node(id),
            ElementKind::Way => self.has_way(id),
            ElementKind::Relation => self.has_relation(id),
        }
    }

    /// Whether the pool has the element that the member refers to.
    pub open spec fn has_member(self, m: Member) -> bool {
        self.has(m.kind, m.id)
    }

    /// Whether every node that a way of the pool refers to is in the pool.
    pub open spec fn ways_closed(self) -> bool {
        forall|i: int, j: int|
            0 <= i < self.ways.len() && 0 <= j < self.ways[i].nodes@.len() ==> self.has_node(
                #[trigger] self.ways[i].nodes@[j],
            )
    }

    /// Whether every element that a relation of the pool refers to is in
    /// the pool.
    pub open spec fn relations_closed(self) -> bool {
        forall|i: int, j: int|
            0 <= i < self.relations.len() && 0 <= j < self.relations[i].members@.len()
                ==> self.has_member(#[trigger] self.relations[i].members@[j])
    }

    /// Whether every reference in the pool leads to an element of the pool.
    pub open spec fn closed(self) -> bool {
        self.ways_closed() && self.relations_closed()
    }
}

impl Default for Pool {
    fn default() -> (out: Self)
        ensures
            out@.nodes.len() == 0,
            out@.ways.len() == 0,
            out@.relations.len() == 0,
    {
        Pool::new()
    }
}

impl Pool {
    /// A pool without elements.
    pub fn new() -> (out: Self)
        ensures
            out@.nodes.len() == 0,
            out@.ways.len() == 0,
            out@.relations.len() == 0,
    {
        Pool { nodes: Vec::new(), ways: Vec::new(), relations: Vec::new() }
    }
}

} // verus!
