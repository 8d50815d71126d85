//! The extract: the elements of an area, nodes and ways by id and relations
//! in order, which owns all of them.
use vstd::prelude::*;

use crate::element::{by_id, first_ids, has_id, index_of, lemma_by_id};
use crate::idmap::IdMap;
use crate::item_type::ElementKind;
use crate::node::Node;
use crate::pool::{Pool, PoolView};
use crate::relation::{Member, Relation};
use crate::resolve::{member_found, pool_indexed};
use crate::seqs::{lemma_filter_none, lemma_filter_step};
use crate::way::Way;
use crate::ElementID;

verus! {

/// The elements of an area.
///
/// Ways and relations name what they refer to by id; the references are
/// followed through the mappings here. An area is closed when every such
/// reference leads to an element of the area.
#[derive(Clone, Debug)]
pub struct AreaData {
    /// Nodes by id.
    pub nodes: IdMap<Node>,
    /// Ways by id.
    pub ways: IdMap<Way>,
    /// Relations in the order in which they were found.
    pub relations: Vec<Relation>,
}

/// A relation that refers to no element of its area. The rules of the
/// closure never produce one, so it shows a malformed pool.
#[derive(Clone, Copy, Debug, PartialEq, Eq, Structural)]
pub struct InvariantViolation {
    pub relation: ElementID,
}

/// What a reference leads to.
#[derive(Clone, Debug)]
pub enum ElementRef<'a> {
    Node(&'a Node),
    Way(&'a Way),
    Relation(&'a Relation),
}

/// Whether the relation refers to at least one element of the pool.
pub open spec fn anchored(p: PoolView, r: Relation) -> bool {
    exists|j: int| 0 <= j < r.members@.len() && p.has_member(#[trigger] r.members@[j])
}

/// Whether the relation at `i` is the first of the pool that refers to no
/// element of the pool.
pub open spec fn first_loose(p: PoolView, i: int) -> bool {
    &&& 0 <= i < p.relations.len()
    &&& !anchored(p, p.relations[i])
    &&& forall|k: int| 0 <= k < i ==> anchored(p, #[trigger] p.relations[k])
}

impl Default for AreaData {
    fn default() -> (out: Self)
        ensures
            out.nodes@ == Map::<ElementID, Node>::empty(),
            out.ways@ == Map::<ElementID, Way>::empty(),
            out.relations@.len() == 0,
    {
        AreaData { nodes: IdMap::new(), ways: IdMap::new(), relations: Vec::new() }
    }
}

impl AreaData {
    /// Whether the area has a node with this id.
    pub open spec fn has_node(self, id: ElementID) -> bool {
        self.nodes@.contains_key(id)
    }

    /// Whether the area has a way with this id.
    pub open spec fn has_way(self, id: ElementID) -> bool {
        self.ways@.contains_key(id)
    }

    /// Whether the area has a relation with this id.
    pub open spec fn has_relation(self, id: ElementID) -> bool {
        has_id(self.relations@, id)
    }

    /// Whether the area has the element that the member refers to.
    pub open spec fn has_member(self, m: Member) -> bool {
        match m.kind {
            ElementKind::Node => self.has_node(m.id),
            ElementKind::Way => self.has_way(m.id),
            ElementKind::Relation => self.has_relation(m.id),
        }
    }

    /// Whether `r` is the first relation of the area with this id.
    pub open spec fn first_relation(self, id: ElementID, r: Relation) -> bool {
        exists|i: int|
            0 <= i < self.relations@.len() && (#[trigger] self.relations@[i]) == r && r.id == id
                && forall|k: int| 0 <= k < i ==> (#[trigger] self.relations@[k]).id != id
    }

    /// Whether every node and way is stored under its own id.
    pub open spec fn keyed(self) -> bool {
        &&& forall|id: ElementID| #[trigger]
            self.nodes@.contains_key(id) ==> self.nodes@[id].id == id
        &&& forall|id: ElementID| #[trigger] self.ways@.contains_key(id) ==> self.ways@[id].id == id
    }

    /// Whether every node that a way of the area refers to is in the area.
    pub open spec fn ways_closed(self) -> bool {
        forall|id: ElementID, j: int|
            self.ways@.contains_key(id) && 0 <= j < self.ways@[id].nodes@.len() ==> self.has_node(
                #[trigger] self.ways@[id].nodes@[j],
            )
    }

    /// Whether every element that a relation of the area refers to is in
    /// the area.
    pub open spec fn relations_closed(self) -> bool {
        forall|i: int, j: int|
            0 <= i < self.relations@.len() && 0 <= j < self.relations@[i].members@.len()
                ==> self.has_member(#[trigger] self.relations@[i].members@[j])
    }

    /// Whether no reference in the area dangles.
    pub open spec fn closed(self) -> bool {
        self.ways_closed() && self.relations_closed()
    }

    /// Whether every relation of the area refers to at least one element
    /// of the area.
    pub open spec fn all_anchored(self) -> bool {
        forall|i: int|
            0 <= i < self.relations@.len() ==> exists|j: int|
                0 <= j < (#[trigger] self.relations@[i]).members@.len() && self.has_member(
                    #[trigger] self.relations@[i].members@[j],
                )
    }

    /// Whether the area holds exactly the elements of the pool: nodes and
    /// ways by id, in the order in which each id came first, and the
    /// relations as they stand.
    pub open spec fn holds(self, p: PoolView) -> bool {
        &&& self.nodes@ == by_id(p.nodes)
        &&& self.nodes.ids() == first_ids(p.nodes)
        &&& self.ways@ == by_id(p.ways)
        &&& self.ways.ids() == first_ids(p.ways)
        &&& self.relations@ == p.relations
    }

    /// The area of the pool's elements, whatever they refer to: nodes and
    /// ways go under their ids, the relations stay in their order.
    pub fn assemble(pool: Pool) -> (out: Self)
        ensures
            out.holds(pool@),
    {
        let Pool { nodes, ways, relations } = pool;
        AreaData { nodes: IdMap::from_elements(nodes), ways: IdMap::from_elements(ways), relations }
    }

    /// The area of a pool that is taken to be an extract already.
    ///
    /// In an extract every relation is there because of something it refers
    /// to, so a relation that refers to no element of the pool cannot come
    /// from the rules of the closure. Such a relation is never dropped in
    /// silence: the first one is the error.
    pub fn from_pool(pool: Pool) -> (out: Result<Self, InvariantViolation>)
        ensures
            out is Ok <==> forall|i: int|
                0 <= i < pool@.relations.len() ==> anchored(pool@, #[trigger] pool@.relations[i]),
            out is Ok ==> out->Ok_0.holds(pool@),
            out is Err ==> exists|i: int|
                first_loose(pool@, i) && out->Err_0.relation == (#[trigger] pool@.relations[i]).id,
    {
        let ghost p = pool@;
        let node_ix = index_of(&pool.nodes);
        let way_ix = index_of(&pool.ways);
        let relation_ix = index_of(&pool.relations);
        let mut i: usize = 0;
        while i < pool.relations.len()
            invariant
                i <= pool.relations.len(),
                p == pool@,
                pool_indexed(p, node_ix, way_ix, relation_ix),
                forall|k: int| 0 <= k < i ==> anchored(p, #[trigger] p.relations[k]),
            decreases pool.relations.len() - i,
        {
            let r = &pool.relations[i];
            let mut j: usize = 0;
            let mut found = false;
            while j < r.members.len() && !found
                invariant
                    j <= r.members.len(),
                    pool_indexed(p, node_ix, way_ix, relation_ix),
                    found ==> anchored(p, *r),
                    !found ==> forall|k: int| 0 <= k < j ==> !p.has_member(#[trigger] r.members@[k]),
                decreases r.members.len() - j, if found { 0int } else { 1int },
            {
                if member_found(&r.members[j], &node_ix, &way_ix, &relation_ix, Ghost(p)) {
                    assert(p.has_member(r.members@[j as int]));
                    found = true;
                } else {
                    j += 1;
                }
            }
            if !found {
                assert(first_loose(p, i as int));
                return Err(InvariantViolation { relation: r.id });
            }
            i += 1;
        }
        Ok(AreaData::assemble(pool))
    }

    /// The node with this id.
    pub fn node(&self, id: ElementID) -> (found: Option<&Node>)
        ensures
            found is Some <==> self.has_node(id),
            found is Some ==> *found->0 == self.nodes@[id],
    {
        self.nodes.get(id)
    }

    /// The way with this id.
    pub fn way(&self, id: ElementID) -> (found: Option<&Way>)
        ensures
            found is Some <==> self.has_way(id),
            found is Some ==> *found->0 == self.ways@[id],
    {
        self.ways.get(id)
    }

    /// The first relation with this id.
    pub fn relation(&self, id: ElementID) -> (found: Option<&Relation>)
        ensures
            found is Some <==> self.has_relation(id),
            found is Some ==> self.first_relation(id, *found->0),
    {
        let mut i: usize = 0;
        while i < self.relations.len()
            invariant
                i <= self.relations.len(),
                forall|k: int| 0 <= k < i ==> (#[trigger] self.relations@[k]).id != id,
            decreases self.relations.len() - i,
        {
            if self.relations[i].id == id {
                assert(self.relations@[i as int].id == id);
                return Some(&self.relations[i]);
            }
            i += 1;
        }
        None
    }

    /// What the member refers to, if the area has it.
    pub fn member(&self, m: &Member) -> (found: Option<ElementRef<'_>>)
        ensures
            found is Some <==> self.has_member(*m),
            found is Some ==> match found->0 {
                ElementRef::Node(n) => m.kind == ElementKind::Node && *n == self.nodes@[m.id],
                ElementRef::Way(w) => m.kind == ElementKind::Way && *w == self.ways@[m.id],
                ElementRef::Relation(r) => m.kind == ElementKind::Relation
                    && self.first_relation(m.id, *r),
            },
    {
        match m.kind {
            ElementKind::Node => match self.node(m.id) {
                Some(n) => Some(ElementRef::Node(n)),
                None => None,
            },
            ElementKind::Way => match self.way(m.id) {
                Some(w) => Some(ElementRef::Way(w)),
                None => None,
            },
            ElementKind::Relation => match self.relation(m.id) {
                Some(r) => Some(ElementRef::Relation(r)),
                None => None,
            },
        }
    }

    /// The nodes of the way with this id, in the order of the way, or
    /// `None` where the area lacks the way or one of its nodes.
    pub fn way_nodes(&self, id: ElementID) -> (found: Option<Vec<&Node>>)
        ensures
            found is Some <==> self.has_way(id) && forall|j: int|
                0 <= j < self.ways@[id].nodes@.len() ==> self.has_node(
                    #[trigger] self.ways@[id].nodes@[j],
                ),
            found is Some ==> found->0@.len() == self.ways@[id].nodes@.len() && forall|j: int|
                0 <= j < found->0@.len() ==> *(#[trigger] found->0@[j]) == self.nodes@[self.ways@[id].nodes@[j]],
    {
        let w = match self.ways.get(id) {
            Some(w) => w,
            None => {
                return None;
            },
        };
        let mut out: Vec<&Node> = Vec::new();
        let mut j: usize = 0;
        while j < w.nodes.len()
            invariant
                j <= w.nodes.len(),
                self.has_way(id),
                *w == self.ways@[id],
                out@.len() == j,
                forall|k: int| 0 <= k < j ==> self.has_node(#[trigger] w.nodes@[k]),
                forall|k: int| 0 <= k < j ==> *(#[trigger] out@[k]) == self.nodes@[w.nodes@[k]],
            decreases w.nodes.len() - j,
        {
            match self.nodes.get(w.nodes[j]) {
                Some(n) => {
                    out.push(n);
                },
                None => {
                    assert(!self.has_node(w.nodes@[j as int]));
                    return None;
                },
            }
            j += 1;
        }
        Some(out)
    }

    /// The test that a way id passes when its way has no nodes.
    pub open spec fn way_is_empty(self) -> spec_fn(ElementID) -> bool {
        |id: ElementID| self.ways@[id].nodes@.len() == 0
    }

    /// The ids of the ways without any node, in the order of the ways.
    /// Such ways are faulty data that is passed through, and this is where
    /// they are marked.
    pub fn empty_ways(&self) -> (out: Vec<ElementID>)
        ensures
            out@ == self.ways.ids().filter(self.way_is_empty()),
    {
        let mut out: Vec<ElementID> = Vec::new();
        let n = self.ways.len();
        let mut i: usize = 0;
        proof {
            lemma_filter_none(self.ways.ids(), self.way_is_empty());
        }
        while i < n
            invariant
                i <= n,
                n == self.ways.ids().len(),
                out@ == self.ways.ids().take(i as int).filter(self.way_is_empty()),
            decreases n - i,
        {
            proof {
                lemma_filter_step(self.ways.ids(), i as int, self.way_is_empty());
            }
            let id = self.ways.id_at(i);
            if self.ways.at(i).is_empty() {
                out.push(id);
            }
            i += 1;
        }
        assert(self.ways.ids().take(n as int) =~= self.ways.ids());
        out
    }
}

/// An area holds, id for id, what the pool it was made of holds.
pub proof fn lemma_area_same_ids(a: AreaData, p: PoolView, m: Member)
    requires
        a.holds(p),
    ensures
        a.has_member(m) == p.has_member(m),
{
    lemma_by_id(p.nodes, m.id);
    lemma_by_id(p.ways, m.id);
}

/// An area made of a pool stores every node and way under its own id, and
/// is closed if the pool is.
pub proof fn lemma_area_closed(a: AreaData, p: PoolView)
    requires
        a.holds(p),
    ensures
        a.keyed(),
        p.closed() ==> a.closed(),
{
    assert forall|id: ElementID| #[trigger] a.nodes@.contains_key(id) implies a.nodes@[id].id
        == id by {
        lemma_by_id(p.nodes, id);
    }
    assert forall|id: ElementID| #[trigger] a.ways@.contains_key(id) implies a.ways@[id].id
        == id by {
        lemma_by_id(p.ways, id);
    }
    if p.closed() {
        assert forall|id: ElementID, j: int|
            a.ways@.contains_key(id) && 0 <= j < a.ways@[id].nodes@.len() implies a.has_node(
            #[trigger] a.ways@[id].nodes@[j],
        ) by {
            lemma_by_id(p.ways, id);
            let w = a.ways@[id];
            let k = choose|k: int| 0 <= k < p.ways.len() && p.ways[k] == w;
            assert(p.has_node(p.ways[k].nodes@[j]));
            lemma_by_id(p.nodes, w.nodes@[j]);
        }
        assert forall|i: int, j: int|
            0 <= i < a.relations@.len() && 0 <= j < a.relations@[i].members@.len() implies a.has_member(
            #[trigger] a.relations@[i].members@[j],
        ) by {
            assert(p.has_member(p.relations[i].members@[j]));
            lemma_area_same_ids(a, p, a.relations@[i].members@[j]);
        }
    }
}

} // verus!
