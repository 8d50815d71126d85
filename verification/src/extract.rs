//! From a raw pool to the extract of a box: cut the pool to the box, check
//! the references of what is left, and build the area.
use vstd::prelude::*;

use crate::area::{lemma_area_closed, lemma_area_same_ids, AreaData};
use crate::bbox::BoundingBox;
use crate::closure::{
    lemma_selection_anchored, lemma_selection_ids, lemma_selection_monotone, node_included,
    relation_included, select, selection, way_included,
};
use crate::element::lemma_by_id;
use crate::item_type::ElementKind;
use crate::pool::{Pool, PoolView};
use crate::resolve::{
    dangling, lemma_resolved_closed, lemma_resolved_same_ids, member_present, relation_resolved,
    resolve, resolves_to, DanglingReferenceError, Policy, Resolution,
};
use crate::seqs::lemma_filter_members;
use crate::ElementID;

verus! {

/// The extract of a box, with the references that had to be dropped to
/// close it.
#[derive(Clone, Debug)]
pub struct Extract {
    pub area: AreaData,
    pub dropped: Vec<DanglingReferenceError>,
}

/// Whether the area holds the selection with every reference dropped that
/// leads out of the selection, and nothing else changed.
pub open spec fn extracted(sel: PoolView, area: AreaData) -> bool {
    exists|q: PoolView| resolves_to(sel, q) && area.holds(q)
}

/// Whether the area has, kind by kind, exactly the ids that the rules of the
/// closure include for the box.
pub open spec fn has_the_ids(area: AreaData, p: PoolView, b: BoundingBox) -> bool {
    &&& forall|id: ElementID| area.has_node(id) <==> node_included(p, b, id)
    &&& forall|id: ElementID| area.has_way(id) <==> way_included(p, b, id)
    &&& forall|id: ElementID| area.has_relation(id) <==> relation_included(p, b, id)
}

/// An area that holds a resolved selection is closed, and each of its
/// relations still refers to an element of the area.
pub proof fn lemma_extract_sound(p: PoolView, b: BoundingBox, q: PoolView, area: AreaData)
    requires
        resolves_to(selection(p, b), q),
        area.holds(q),
    ensures
        area.keyed(),
        area.closed(),
        area.all_anchored(),
        has_the_ids(area, p, b),
{
    let sel = selection(p, b);
    lemma_resolved_closed(sel, q);
    lemma_area_closed(area, q);
    assert forall|i: int| 0 <= i < area.relations@.len() implies exists|j: int|
        0 <= j < (#[trigger] area.relations@[i]).members@.len() && area.has_member(
            #[trigger] area.relations@[i].members@[j],
        ) by {
        lemma_selection_anchored(p, b, i);
        let r = sel.relations[i];
        let j = choose|j: int| 0 <= j < r.members@.len() && sel.has_member(#[trigger] r.members@[j]);
        let m = r.members@[j];
        assert(relation_resolved(sel, r, q.relations[i]));
        lemma_filter_members(r.members@, member_present(sel));
        assert(r.members@.contains(m));
        assert(member_present(sel)(m));
        assert(q.relations[i].members@.contains(m));
        let k = choose|k: int|
            0 <= k < q.relations[i].members@.len() && q.relations[i].members@[k] == m;
        lemma_resolved_same_ids(sel, q, m.kind, m.id);
        lemma_area_same_ids(area, q, m);
        assert(area.has_member(area.relations@[i].members@[k]));
    }
    assert forall|id: ElementID| area.has_node(id) <==> node_included(p, b, id) by {
        lemma_selection_ids(p, b, id);
        lemma_by_id(q.nodes, id);
    }
    assert forall|id: ElementID| area.has_way(id) <==> way_included(p, b, id) by {
        lemma_selection_ids(p, b, id);
        lemma_resolved_same_ids(sel, q, ElementKind::Way, id);
        lemma_by_id(q.ways, id);
    }
    assert forall|id: ElementID| area.has_relation(id) <==> relation_included(p, b, id) by {
        lemma_selection_ids(p, b, id);
        lemma_resolved_same_ids(sel, q, ElementKind::Relation, id);
    }
}

/// The extract of the pool for the box.
///
/// The pool is cut to the box by the rules of the closure. What is left may
/// still refer to elements that did not come along, mostly members of
/// relations. Under [`Policy::Strict`] the first such reference is the
/// error. Under [`Policy::Lenient`] each is dropped and listed. Either way
/// the area that comes back is closed.
pub fn extract(pool: Pool, bbox: &BoundingBox, policy: Policy) -> (out: Result<
    Extract,
    DanglingReferenceError,
>)
    ensures
        out is Err <==> policy is Strict && dangling(selection(pool@, *bbox)).len() > 0,
        out is Err ==> out->Err_0 == dangling(selection(pool@, *bbox))[0],
        out is Ok ==> extracted(selection(pool@, *bbox), out->Ok_0.area),
        out is Ok ==> out->Ok_0.dropped@ == dangling(selection(pool@, *bbox)),
        out is Ok ==> out->Ok_0.area.keyed() && out->Ok_0.area.closed()
            && out->Ok_0.area.all_anchored(),
        out is Ok ==> has_the_ids(out->Ok_0.area, pool@, *bbox),
{
    let ghost p = pool@;
    let cut = select(pool, bbox);
    match resolve(cut, policy) {
        Err(e) => Err(e),
        Ok(Resolution { pool: closed, dropped }) => {
            let ghost q = closed@;
            let area = AreaData::assemble(closed);
            proof {
                lemma_extract_sound(p, *bbox, q, area);
            }
            Ok(Extract { area, dropped })
        },
    }
}

/// Growing the box never loses anything from the extract: every node, way
/// and relation of the extract for a box is, by its id, in the extract of
/// the same pool for every box that covers it.
pub proof fn lemma_extract_monotone(
    p: PoolView,
    small: BoundingBox,
    big: BoundingBox,
    inner: AreaData,
    outer: AreaData,
)
    requires
        big.covers(small),
        has_the_ids(inner, p, small),
        has_the_ids(outer, p, big),
    ensures
        forall|id: ElementID| inner.has_node(id) ==> outer.has_node(id),
        forall|id: ElementID| inner.has_way(id) ==> outer.has_way(id),
        forall|id: ElementID| inner.has_relation(id) ==> outer.has_relation(id),
{
    lemma_selection_monotone(p, small, big);
}

} // verus!
