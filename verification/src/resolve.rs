//! The reference resolver: checks every reference of a pool against the
//! pool, and either fails on the first that leads nowhere or drops those
//! that do and reports them.
use vstd::prelude::*;

use crate::element::{index_of, indexes};
use crate::index::{index_contains, IdIndex};
use crate::item_type::ElementKind;
use crate::pool::{Pool, PoolView};
use crate::relation::{Member, Relation};
use crate::seqs::{lemma_filter_all, lemma_filter_members, lemma_filter_none, lemma_filter_step};
use crate::way::Way;
use crate::ElementID;

verus! {

/// What to do with a reference that leads nowhere.
#[derive(Clone, Copy, Debug, PartialEq, Eq, Structural)]
pub enum Policy {
    /// Fail on the first such reference.
    Strict,
    /// Drop each such reference, go on, and report what was dropped. This
    /// suits partial extracts, where a node just outside the window is
    /// rightly absent.
    Lenient,
}

/// A reference to an element that the pool does not hold: who refers, and
/// to what.
#[derive(Clone, Copy, Debug, PartialEq, Eq, Structural)]
pub struct DanglingReferenceError {
    pub referrer_kind: ElementKind,
    pub referrer: ElementID,
    pub missing_kind: ElementKind,
    pub missing: ElementID,
}

/// A pool whose references have been checked, with the references that were
/// dropped on the way.
#[derive(Clone, Debug)]
pub struct Resolution {
    pub pool: Pool,
    pub dropped: Vec<DanglingReferenceError>,
}

/// The test that a node id passes when the pool has the node.
pub open spec fn node_present(p: PoolView) -> spec_fn(ElementID) -> bool {
    |id: ElementID| p.has_node(id)
}

/// The test that a node id passes when the pool lacks the node.
pub open spec fn node_missing(p: PoolView) -> spec_fn(ElementID) -> bool {
    |id: ElementID| !p.has_node(id)
}

/// The test that a member passes when the pool has what it refers to.
pub open spec fn member_present(p: PoolView) -> spec_fn(Member) -> bool {
    |m: Member| p.has_member(m)
}

/// The test that a member passes when the pool lacks what it refers to.
pub open spec fn member_missing(p: PoolView) -> spec_fn(Member) -> bool {
    |m: Member| !p.has_member(m)
}

/// The report of a way's reference to a missing node.
pub open spec fn way_complaint(way: ElementID) -> spec_fn(ElementID) -> DanglingReferenceError {
    |id: ElementID|
        DanglingReferenceError {
            referrer_kind: ElementKind::Way,
            referrer: way,
            missing_kind: ElementKind::Node,
            missing: id,
        }
}

/// The report of a relation's reference to a missing element.
pub open spec fn relation_complaint(relation: ElementID) -> spec_fn(Member) -> DanglingReferenceError {
    |m: Member|
        DanglingReferenceError {
            referrer_kind: ElementKind::Relation,
            referrer: relation,
            missing_kind: m.kind,
            missing: m.id,
        }
}

/// The dangling references of one way, in the order of its nodes.
pub open spec fn way_dangling(p: PoolView, w: Way) -> Seq<DanglingReferenceError> {
    w.nodes@.filter(node_missing(p)).map_values(way_complaint(w.id))
}

/// The dangling references of one relation, in the order of its members.
pub open spec fn relation_dangling(p: PoolView, r: Relation) -> Seq<DanglingReferenceError> {
    r.members@.filter(member_missing(p)).map_values(relation_complaint(r.id))
}

/// The dangling references of a list of ways, way after way.
pub open spec fn ways_dangling(p: PoolView, ways: Seq<Way>) -> Seq<DanglingReferenceError>
    decreases ways.len(),
{
    if ways.len() == 0 {
        Seq::empty()
    } else {
        ways_dangling(p, ways.drop_last()) + way_dangling(p, ways.last())
    }
}

/// The dangling references of a list of relations, relation after relation.
pub open spec fn relations_dangling(p: PoolView, relations: Seq<Relation>) -> Seq<
    DanglingReferenceError,
>
    decreases relations.len(),
{
    if relations.len() == 0 {
        Seq::empty()
    } else {
        relations_dangling(p, relations.drop_last()) + relation_dangling(p, relations.last())
    }
}

/// Every dangling reference of the pool: those of its ways, then those of
/// its relations.
pub open spec fn dangling(p: PoolView) -> Seq<DanglingReferenceError> {
    ways_dangling(p, p.ways) + relations_dangling(p, p.relations)
}

/// Whether `out` is the way `w` with exactly the references kept that the
/// pool can follow.
pub open spec fn way_resolved(p: PoolView, w: Way, out: Way) -> bool {
    &&& out.id == w.id
    &&& out.name == w.name
    &&& out.timestamp == w.timestamp
    &&& out.tags == w.tags
    &&& out.nodes@ == w.nodes@.filter(node_present(p))
}

/// Whether `out` is the relation `r` with exactly the members kept that the
/// pool can follow.
pub open spec fn relation_resolved(p: PoolView, r: Relation, out: Relation) -> bool {
    &&& out.id == r.id
    &&& out.timestamp == r.timestamp
    &&& out.tags == r.tags
    &&& out.members@ == r.members@.filter(member_present(p))
}

/// Whether `q` is the pool `p` with every dangling reference dropped and
/// nothing else changed.
pub open spec fn resolves_to(p: PoolView, q: PoolView) -> bool {
    &&& q.nodes == p.nodes
    &&& q.ways.len() == p.ways.len()
    &&& forall|i: int| 0 <= i < p.ways.len() ==> way_resolved(p, p.ways[i], #[trigger] q.ways[i])
    &&& q.relations.len() == p.relations.len()
    &&& forall|i: int|
        0 <= i < p.relations.len() ==> relation_resolved(
            p,
            p.relations[i],
            #[trigger] q.relations[i],
        )
}

/// A resolved pool has the elements of the pool it came from, id for id.
pub proof fn lemma_resolved_same_ids(p: PoolView, q: PoolView, kind: ElementKind, id: ElementID)
    requires
        resolves_to(p, q),
    ensures
        q.has(kind, id) == p.has(kind, id),
{
    if p.has_way(id) {
        let i = choose|i: int| 0 <= i < p.ways.len() && (#[trigger] p.ways[i]).id == id;
        assert(q.ways[i].id == id);
    }
    if q.has_way(id) {
        let i = choose|i: int| 0 <= i < q.ways.len() && (#[trigger] q.ways[i]).id == id;
        assert(p.ways[i].id == id);
    }
    if p.has_relation(id) {
        let i = choose|i: int| 0 <= i < p.relations.len() && (#[trigger] p.relations[i]).id == id;
        assert(q.relations[i].id == id);
    }
    if q.has_relation(id) {
        let i = choose|i: int| 0 <= i < q.relations.len() && (#[trigger] q.relations[i]).id == id;
        assert(p.relations[i].id == id);
    }
}

/// In a resolved pool no reference dangles: every node of every way, and
/// every member of every relation, is in the pool.
pub proof fn lemma_resolved_closed(p: PoolView, q: PoolView)
    requires
        resolves_to(p, q),
    ensures
        q.closed(),
{
    assert forall|i: int, j: int|
        0 <= i < q.ways.len() && 0 <= j < q.ways[i].nodes@.len() implies q.has_node(
        #[trigger] q.ways[i].nodes@[j],
    ) by {
        let id = q.ways[i].nodes@[j];
        assert(way_resolved(p, p.ways[i], q.ways[i]));
        lemma_filter_members(p.ways[i].nodes@, node_present(p));
        assert(q.ways[i].nodes@.contains(id));
        assert(node_present(p)(id));
    }
    assert forall|i: int, j: int|
        0 <= i < q.relations.len() && 0 <= j < q.relations[i].members@.len() implies q.has_member(
        #[trigger] q.relations[i].members@[j],
    ) by {
        let m = q.relations[i].members@[j];
        assert(relation_resolved(p, p.relations[i], q.relations[i]));
        lemma_filter_members(p.relations[i].members@, member_present(p));
        assert(q.relations[i].members@.contains(m));
        assert(member_present(p)(m));
        lemma_resolved_same_ids(p, q, m.kind, m.id);
    }
}

/// Whether the indexes know the pool's nodes, ways and relations.
pub open spec fn pool_indexed(p: PoolView, nodes: IdIndex, ways: IdIndex, relations: IdIndex) -> bool {
    indexes(nodes, p.nodes) && indexes(ways, p.ways) && indexes(relations, p.relations)
}

fn resolve_way(
    w: Way,
    nodes: &IdIndex,
    dropped: &mut Vec<DanglingReferenceError>,
    Ghost(p): Ghost<PoolView>,
) -> (out: Way)
    requires
        indexes(*nodes, p.nodes),
    ensures
        way_resolved(p, w, out),
        final(dropped)@ == old(dropped)@ + way_dangling(p, w),
{
    let ghost before = dropped@;
    let mut kept: Vec<ElementID> = Vec::new();
    let mut j: usize = 0;
    proof {
        lemma_filter_none(w.nodes@, node_present(p));
        lemma_filter_none(w.nodes@, node_missing(p));
        assert(dropped@ =~= before + w.nodes@.take(0).filter(node_missing(p)).map_values(
            way_complaint(w.id),
        ));
    }
    while j < w.nodes.len()
        invariant
            j <= w.nodes.len(),
            indexes(*nodes, p.nodes),
            kept@ == w.nodes@.take(j as int).filter(node_present(p)),
            dropped@ == before + w.nodes@.take(j as int).filter(node_missing(p)).map_values(
                way_complaint(w.id),
            ),
        decreases w.nodes.len() - j,
    {
        let id = w.nodes[j];
        proof {
            lemma_filter_step(w.nodes@, j as int, node_present(p));
            lemma_filter_step(w.nodes@, j as int, node_missing(p));
        }
        let ghost gone = w.nodes@.take(j as int).filter(node_missing(p));
        if index_contains(nodes, id) {
            kept.push(id);
        } else {
            dropped.push(
                DanglingReferenceError {
                    referrer_kind: ElementKind::Way,
                    referrer: w.id,
                    missing_kind: ElementKind::Node,
                    missing: id,
                },
            );
            assert(dropped@ =~= before + gone.push(id).map_values(way_complaint(w.id)));
        }
        j += 1;
    }
    assert(w.nodes@.take(w.nodes.len() as int) =~= w.nodes@);
    Way { nodes: kept, id: w.id, name: w.name, timestamp: w.timestamp, tags: w.tags }
}

pub(crate) fn member_found(m: &Member, nodes: &IdIndex, ways: &IdIndex, relations: &IdIndex, Ghost(p): Ghost<
    PoolView,
>) -> (found: bool)
    requires
        pool_indexed(p, *nodes, *ways, *relations),
    ensures
        found == p.has_member(*m),
{
    match m.kind {
        ElementKind::Node => index_contains(nodes, m.id),
        ElementKind::Way => index_contains(ways, m.id),
        ElementKind::Relation => index_contains(relations, m.id),
    }
}

fn resolve_relation(
    r: Relation,
    nodes: &IdIndex,
    ways: &IdIndex,
    relations: &IdIndex,
    dropped: &mut Vec<DanglingReferenceError>,
    Ghost(p): Ghost<PoolView>,
) -> (out: Relation)
    requires
        pool_indexed(p, *nodes, *ways, *relations),
    ensures
        relation_resolved(p, r, out),
        final(dropped)@ == old(dropped)@ + relation_dangling(p, r),
{
    let ghost before = dropped@;
    let Relation { members, id, timestamp, tags } = r;
    let ghost all = members@;
    let mut kept: Vec<Member> = Vec::new();
    proof {
        lemma_filter_none(all, member_present(p));
        lemma_filter_none(all, member_missing(p));
        assert(dropped@ =~= before + all.take(0).filter(member_missing(p)).map_values(
            relation_complaint(id),
        ));
    }
    for m in it: members
        invariant
            it.seq() == all,
            pool_indexed(p, *nodes, *ways, *relations),
            kept@ == all.take(it.index() as int).filter(member_present(p)),
            dropped@ == before + all.take(it.index() as int).filter(member_missing(p)).map_values(
                relation_complaint(id),
            ),
    {
        let ghost j = it.index() as int;
        proof {
            lemma_filter_step(all, j, member_present(p));
            lemma_filter_step(all, j, member_missing(p));
        }
        let ghost gone = all.take(j).filter(member_missing(p));
        if member_found(&m, nodes, ways, relations, Ghost(p)) {
            kept.push(m);
        } else {
            dropped.push(
                DanglingReferenceError {
                    referrer_kind: ElementKind::Relation,
                    referrer: id,
                    missing_kind: m.kind,
                    missing: m.id,
                },
            );
            assert(dropped@ =~= before + gone.push(m).map_values(relation_complaint(id)));
        }
    }
    assert(all.take(all.len() as int) =~= all);
    Relation { members: kept, id, timestamp, tags }
}

/// Checks every reference of the pool against the pool.
///
/// Under [`Policy::Strict`] the first dangling reference is the error, and
/// a pool without one comes back as it was. Under [`Policy::Lenient`] the
/// pool comes back without its dangling references, and these are listed:
/// those of the ways first, then those of the relations, each in the order
/// in which the pool holds them.
pub fn resolve(pool: Pool, policy: Policy) -> (out: Result<Resolution, DanglingReferenceError>)
    ensures
        out is Err <==> policy is Strict && dangling(pool@).len() > 0,
        out is Err ==> out->Err_0 == dangling(pool@)[0],
        out is Ok ==> resolves_to(pool@, out->Ok_0.pool@),
        out is Ok ==> out->Ok_0.dropped@ == dangling(pool@),
        out is Ok ==> out->Ok_0.pool@.closed(),
{
    let ghost p = pool@;
    let node_ix = index_of(&pool.nodes);
    let way_ix = index_of(&pool.ways);
    let relation_ix = index_of(&pool.relations);
    let Pool { nodes, ways, relations } = pool;
    let mut dropped: Vec<DanglingReferenceError> = Vec::new();
    let mut ways_out: Vec<Way> = Vec::new();
    for w in it: ways
        invariant
            it.seq() == p.ways,
            indexes(node_ix, p.nodes),
            ways_out@.len() == it.index(),
            forall|i: int| 0 <= i < it.index() ==> way_resolved(p, p.ways[i], #[trigger] ways_out@[i]),
            dropped@ == ways_dangling(p, p.ways.take(it.index() as int)),
    {
        let ghost i = it.index() as int;
        assert(p.ways.take(i + 1).drop_last() =~= p.ways.take(i));
        let resolved = resolve_way(w, &node_ix, &mut dropped, Ghost(p));
        ways_out.push(resolved);
    }
    assert(p.ways.take(p.ways.len() as int) =~= p.ways);
    let ghost from_ways = dropped@;
    let mut relations_out: Vec<Relation> = Vec::new();
    assert(dropped@ =~= from_ways + relations_dangling(p, p.relations.take(0)));
    for r in it: relations
        invariant
            it.seq() == p.relations,
            pool_indexed(p, node_ix, way_ix, relation_ix),
            relations_out@.len() == it.index(),
            forall|i: int|
                0 <= i < it.index() ==> relation_resolved(
                    p,
                    p.relations[i],
                    #[trigger] relations_out@[i],
                ),
            dropped@ == from_ways + relations_dangling(p, p.relations.take(it.index() as int)),
    {
        let ghost i = it.index() as int;
        let ghost so_far = relations_dangling(p, p.relations.take(i));
        assert(p.relations.take(i + 1).drop_last() =~= p.relations.take(i));
        let resolved = resolve_relation(r, &node_ix, &way_ix, &relation_ix, &mut dropped, Ghost(p));
        relations_out.push(resolved);
        assert(dropped@ =~= from_ways + (so_far + relation_dangling(p, p.relations[i])));
    }
    assert(p.relations.take(p.relations.len() as int) =~= p.relations);
    let out_pool = Pool { nodes, ways: ways_out, relations: relations_out };
    proof {
        lemma_resolved_closed(p, out_pool@);
    }
    match policy {
        Policy::Strict => {
            if dropped.len() > 0 {
                return Err(dropped[0]);
            }
        },
        Policy::Lenient => {},
    }
    Ok(Resolution { pool: out_pool, dropped })
}

/// Where nothing dangles, resolving changes no way and no relation.
pub proof fn lemma_resolved_unchanged(p: PoolView, q: PoolView)
    requires
        resolves_to(p, q),
        p.closed(),
    ensures
        forall|i: int| 0 <= i < p.ways.len() ==> (#[trigger] q.ways[i]).nodes@ == p.ways[i].nodes@,
        forall|i: int|
            0 <= i < p.relations.len() ==> (#[trigger] q.relations[i]).members@
                == p.relations[i].members@,
{
    assert forall|i: int| 0 <= i < p.ways.len() implies (#[trigger] q.ways[i]).nodes@
        == p.ways[i].nodes@ by {
        assert(way_resolved(p, p.ways[i], q.ways[i]));
        let refs = p.ways[i].nodes@;
        assert forall|j: int| 0 <= j < refs.len() implies node_present(p)(#[trigger] refs[j]) by {
            assert(p.has_node(p.ways[i].nodes@[j]));
        }
        lemma_filter_all(refs, node_present(p));
    }
    assert forall|i: int| 0 <= i < p.relations.len() implies (#[trigger] q.relations[i]).members@
        == p.relations[i].members@ by {
        assert(relation_resolved(p, p.relations[i], q.relations[i]));
        let ms = p.relations[i].members@;
        assert forall|j: int| 0 <= j < ms.len() implies member_present(p)(#[trigger] ms[j]) by {
            assert(p.has_member(p.relations[i].members@[j]));
        }
        lemma_filter_all(ms, member_present(p));
    }
}

} // verus!
