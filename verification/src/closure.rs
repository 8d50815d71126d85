//! The area closure: which elements of a pool belong to the extract for a
//! bounding box.
//!
//! Three rules decide, applied once and in this order.
//!
//! 1. Every node that lies in the box, edges included, is a seed and
//!    belongs to the extract.
//! 2. Every way that refers to a seed belongs to the extract, and with it
//!    every node of the pool that the way refers to, inside the box or not.
//!    A way without any node is faulty data; it is passed through as it is.
//! 3. Every relation that refers to a node or way of the extract belongs to
//!    it, and so does every relation that refers to such a relation. The
//!    rule stops there: a relation that came in only through another
//!    relation brings in no further one.
//!
//! Membership goes upwards only. What an included relation refers to is not
//! pulled in by it.
use vstd::prelude::*;

use crate::bbox::{lemma_covers_holds, lemma_widened_covers, BoundingBox};
use crate::element::has_id;
use crate::index::{index_contains, index_entries, index_insert, index_new, IdIndex};
use crate::item_type::ElementKind;
use crate::node::Node;
use crate::pool::{Pool, PoolView};
use crate::relation::{Member, Relation};
use crate::seqs::{lemma_filter_members, lemma_filter_none, lemma_filter_step};
use crate::way::Way;
use crate::ElementID;

verus! {

/// Whether one of the nodes has this id and lies in the box.
pub open spec fn seed_among(nodes: Seq<Node>, b: BoundingBox, id: ElementID) -> bool {
    exists|i: int|
        0 <= i < nodes.len() && (#[trigger] nodes[i]).id == id && b.holds(
            nodes[i].lat,
            nodes[i].lon,
        )
}

/// Whether `id` is the id of a seed: of a node of the pool that lies in the
/// box.
pub open spec fn is_seed(p: PoolView, b: BoundingBox, id: ElementID) -> bool {
    seed_among(p.nodes, b, id)
}

/// Whether the way belongs to the extract: it refers to a seed, or it has
/// no nodes at all.
pub open spec fn way_selected(p: PoolView, b: BoundingBox, w: Way) -> bool {
    w.nodes@.len() == 0 || exists|j: int|
        0 <= j < w.nodes@.len() && is_seed(p, b, #[trigger] w.nodes@[j])
}

/// Whether one of the ways belongs to the extract and refers to `id`.
pub open spec fn pulled_among(p: PoolView, b: BoundingBox, ways: Seq<Way>, id: ElementID) -> bool {
    exists|i: int, j: int|
        0 <= i < ways.len() && 0 <= j < ways[i].nodes@.len() && way_selected(p, b, ways[i])
            && #[trigger] ways[i].nodes@[j] == id
}

/// Whether a way of the extract refers to `id`.
pub open spec fn is_pulled(p: PoolView, b: BoundingBox, id: ElementID) -> bool {
    pulled_among(p, b, p.ways, id)
}

/// Whether a node with this id belongs to the extract: the pool has it, and
/// it is a seed or a way of the extract refers to it.
pub open spec fn node_included(p: PoolView, b: BoundingBox, id: ElementID) -> bool {
    p.has_node(id) && (is_seed(p, b, id) || is_pulled(p, b, id))
}

/// Whether one of the ways has this id and belongs to the extract.
pub open spec fn way_among(p: PoolView, b: BoundingBox, ways: Seq<Way>, id: ElementID) -> bool {
    exists|i: int| 0 <= i < ways.len() && (#[trigger] ways[i]).id == id && way_selected(p, b, ways[i])
}

/// Whether a way with this id belongs to the extract.
pub open spec fn way_included(p: PoolView, b: BoundingBox, id: ElementID) -> bool {
    way_among(p, b, p.ways, id)
}

/// Whether the member refers to a node or a way of the extract.
pub open spec fn member_tied(p: PoolView, b: BoundingBox, m: Member) -> bool {
    match m.kind {
        ElementKind::Node => node_included(p, b, m.id),
        ElementKind::Way => way_included(p, b, m.id),
        ElementKind::Relation => false,
    }
}

/// Whether the relation refers to a node or a way of the extract.
pub open spec fn relation_direct(p: PoolView, b: BoundingBox, r: Relation) -> bool {
    exists|j: int| 0 <= j < r.members@.len() && member_tied(p, b, #[trigger] r.members@[j])
}

/// Whether one of the relations has this id and refers to a node or a way
/// of the extract.
pub open spec fn direct_among(
    p: PoolView,
    b: BoundingBox,
    relations: Seq<Relation>,
    id: ElementID,
) -> bool {
    exists|i: int|
        0 <= i < relations.len() && (#[trigger] relations[i]).id == id && relation_direct(
            p,
            b,
            relations[i],
        )
}

/// Whether the member refers to a relation that itself refers to a node or
/// a way of the extract.
pub open spec fn member_follows(p: PoolView, b: BoundingBox, m: Member) -> bool {
    m.kind == ElementKind::Relation && direct_among(p, b, p.relations, m.id)
}

/// Whether the relation belongs to the extract: it refers to a node or way
/// of the extract, or to a relation that does.
pub open spec fn relation_selected(p: PoolView, b: BoundingBox, r: Relation) -> bool {
    exists|j: int|
        0 <= j < r.members@.len() && (member_tied(p, b, #[trigger] r.members@[j])
            || member_follows(p, b, r.members@[j]))
}

/// Whether a relation with this id belongs to the extract.
pub open spec fn relation_included(p: PoolView, b: BoundingBox, id: ElementID) -> bool {
    exists|i: int|
        0 <= i < p.relations.len() && (#[trigger] p.relations[i]).id == id && relation_selected(
            p,
            b,
            p.relations[i],
        )
}

/// The test that a node of the pool passes when it belongs to the extract.
pub open spec fn picks_node(p: PoolView, b: BoundingBox) -> spec_fn(Node) -> bool {
    |n: Node| is_seed(p, b, n.id) || is_pulled(p, b, n.id)
}

/// The test that a way passes when it belongs to the extract.
pub open spec fn picks_way(p: PoolView, b: BoundingBox) -> spec_fn(Way) -> bool {
    |w: Way| way_selected(p, b, w)
}

/// The test that a relation passes when it belongs to the extract.
pub open spec fn picks_relation(p: PoolView, b: BoundingBox) -> spec_fn(Relation) -> bool {
    |r: Relation| relation_selected(p, b, r)
}

/// The part of the pool that belongs to the extract for the box, each
/// collection in the order of the pool.
pub open spec fn selection(p: PoolView, b: BoundingBox) -> PoolView {
    PoolView {
        nodes: p.nodes.filter(picks_node(p, b)),
        ways: p.ways.filter(picks_way(p, b)),
        relations: p.relations.filter(picks_relation(p, b)),
    }
}

/// Whether the index knows exactly the ids of the seeds.
spec fn knows_seeds(ix: IdIndex, p: PoolView, b: BoundingBox) -> bool {
    forall|id: ElementID| #[trigger] index_entries(ix).contains_key(id) <==> is_seed(p, b, id)
}

/// Whether the index knows exactly the ids that ways of the extract refer
/// to.
spec fn knows_pulled(ix: IdIndex, p: PoolView, b: BoundingBox) -> bool {
    forall|id: ElementID| #[trigger] index_entries(ix).contains_key(id) <==> is_pulled(p, b, id)
}

/// Whether the index knows exactly the ids of the nodes of the extract.
spec fn knows_nodes(ix: IdIndex, p: PoolView, b: BoundingBox) -> bool {
    forall|id: ElementID| #[trigger]
        index_entries(ix).contains_key(id) <==> node_included(p, b, id)
}

/// Whether the index knows exactly the ids of the ways of the extract.
spec fn knows_ways(ix: IdIndex, p: PoolView, b: BoundingBox) -> bool {
    forall|id: ElementID| #[trigger] index_entries(ix).contains_key(id) <==> way_included(p, b, id)
}

/// Whether the index knows exactly the ids of the relations that refer to
/// a node or a way of the extract.
spec fn knows_direct(ix: IdIndex, p: PoolView, b: BoundingBox) -> bool {
    forall|id: ElementID| #[trigger]
        index_entries(ix).contains_key(id) <==> direct_among(p, b, p.relations, id)
}

proof fn lemma_seed_step(nodes: Seq<Node>, b: BoundingBox, i: int, id: ElementID)
    requires
        0 <= i < nodes.len(),
    ensures
        seed_among(nodes.take(i + 1), b, id) <==> seed_among(nodes.take(i), b, id) || (nodes[i].id
            == id && b.holds(nodes[i].lat, nodes[i].lon)),
{
    let seen = nodes.take(i);
    let next = nodes.take(i + 1);
    assert(next[i] == nodes[i]);
    if seed_among(next, b, id) {
        let k = choose|k: int|
            0 <= k < next.len() && (#[trigger] next[k]).id == id && b.holds(
                next[k].lat,
                next[k].lon,
            );
        if k < i {
            assert(seen[k] == next[k]);
        }
    }
    if seed_among(seen, b, id) {
        let k = choose|k: int|
            0 <= k < seen.len() && (#[trigger] seen[k]).id == id && b.holds(
                seen[k].lat,
                seen[k].lon,
            );
        assert(next[k] == seen[k]);
    }
}

fn seed_index(nodes: &Vec<Node>, bbox: &BoundingBox) -> (seeds: IdIndex)
    ensures
        forall|id: ElementID| #[trigger]
            index_entries(seeds).contains_key(id) <==> seed_among(nodes@, *bbox, id),
{
    let mut seeds = index_new();
    let mut i: usize = 0;
    while i < nodes.len()
        invariant
            i <= nodes.len(),
            forall|id: ElementID| #[trigger]
                index_entries(seeds).contains_key(id) <==> seed_among(
                    nodes@.take(i as int),
                    *bbox,
                    id,
                ),
        decreases nodes.len() - i,
    {
        let n = &nodes[i];
        proof {
            assert forall|id: ElementID|
                seed_among(nodes@.take(i + 1), *bbox, id) <==> seed_among(
                    nodes@.take(i as int),
                    *bbox,
                    id,
                ) || (nodes@[i as int].id == id && bbox.holds(
                    nodes@[i as int].lat,
                    nodes@[i as int].lon,
                )) by {
                lemma_seed_step(nodes@, *bbox, i as int, id);
            }
        }
        if bbox.contains(n.lat, n.lon) {
            let _ = index_insert(&mut seeds, n.id, i);
        }
        i += 1;
    }
    assert(nodes@.take(nodes.len() as int) =~= nodes@);
    seeds
}

fn way_hits(w: &Way, seeds: &IdIndex, Ghost(p): Ghost<PoolView>, Ghost(b): Ghost<BoundingBox>) -> (hit:
    bool)
    requires
        knows_seeds(*seeds, p, b),
    ensures
        hit == way_selected(p, b, *w),
{
    if w.nodes.len() == 0 {
        return true;
    }
    let mut j: usize = 0;
    while j < w.nodes.len()
        invariant
            j <= w.nodes.len(),
            w.nodes@.len() > 0,
            knows_seeds(*seeds, p, b),
            forall|k: int| 0 <= k < j ==> !is_seed(p, b, #[trigger] w.nodes@[k]),
        decreases w.nodes.len() - j,
    {
        if index_contains(seeds, w.nodes[j]) {
            assert(is_seed(p, b, w.nodes@[j as int]));
            return true;
        }
        j += 1;
    }
    false
}

struct Marks {
    flags: Vec<bool>,
    ids: IdIndex,
}

proof fn lemma_pulled_step(p: PoolView, b: BoundingBox, ways: Seq<Way>, i: int, id: ElementID)
    requires
        0 <= i < ways.len(),
    ensures
        pulled_among(p, b, ways.take(i + 1), id) <==> pulled_among(p, b, ways.take(i), id) || (
        way_selected(p, b, ways[i]) && ways[i].nodes@.contains(id)),
{
    let seen = ways.take(i);
    let next = ways.take(i + 1);
    assert(next[i] == ways[i]);
    if pulled_among(p, b, next, id) {
        let (k, j) = choose|k: int, j: int|
            0 <= k < next.len() && 0 <= j < next[k].nodes@.len() && way_selected(p, b, next[k])
                && #[trigger] next[k].nodes@[j] == id;
        if k < i {
            assert(seen[k] == next[k]);
            assert(seen[k].nodes@[j] == id);
        } else {
            assert(ways[i].nodes@[j] == id);
        }
    }
    if pulled_among(p, b, seen, id) {
        let (k, j) = choose|k: int, j: int|
            0 <= k < seen.len() && 0 <= j < seen[k].nodes@.len() && way_selected(p, b, seen[k])
                && #[trigger] seen[k].nodes@[j] == id;
        assert(next[k] == seen[k]);
        assert(next[k].nodes@[j] == id);
    }
    if way_selected(p, b, ways[i]) && ways[i].nodes@.contains(id) {
        let j = choose|j: int| 0 <= j < ways[i].nodes@.len() && ways[i].nodes@[j] == id;
        assert(next[i].nodes@[j] == id);
    }
}

proof fn lemma_way_step(p: PoolView, b: BoundingBox, ways: Seq<Way>, i: int, id: ElementID)
    requires
        0 <= i < ways.len(),
    ensures
        way_among(p, b, ways.take(i + 1), id) <==> way_among(p, b, ways.take(i), id) || (
        way_selected(p, b, ways[i]) && ways[i].id == id),
{
    let seen = ways.take(i);
    let next = ways.take(i + 1);
    assert(next[i] == ways[i]);
    if way_among(p, b, next, id) {
        let k = choose|k: int|
            0 <= k < next.len() && (#[trigger] next[k]).id == id && way_selected(p, b, next[k]);
        if k < i {
            assert(seen[k] == next[k]);
        }
    }
    if way_among(p, b, seen, id) {
        let k = choose|k: int|
            0 <= k < seen.len() && (#[trigger] seen[k]).id == id && way_selected(p, b, seen[k]);
        assert(next[k] == seen[k]);
    }
}

fn pull_nodes(w: &Way, at: usize, pulled: &mut IdIndex)
    ensures
        forall|id: ElementID| #[trigger]
            index_entries(*final(pulled)).contains_key(id) <==> index_entries(
                *old(pulled),
            ).contains_key(id) || w.nodes@.contains(id),
{
    let mut j: usize = 0;
    while j < w.nodes.len()
        invariant
            j <= w.nodes.len(),
            forall|id: ElementID| #[trigger]
                index_entries(*pulled).contains_key(id) <==> index_entries(
                    *old(pulled),
                ).contains_key(id) || w.nodes@.take(j as int).contains(id),
        decreases w.nodes.len() - j,
    {
        let ghost seen = w.nodes@.take(j as int);
        let ghost next = w.nodes@.take(j + 1);
        let _ = index_insert(pulled, w.nodes[j], at);
        proof {
            assert(next =~= seen.push(w.nodes@[j as int]));
            assert forall|id: ElementID| next.contains(id) <==> seen.contains(id) || id
                == w.nodes@[j as int] by {
                if seen.contains(id) {
                    let k = choose|k: int| 0 <= k < seen.len() && seen[k] == id;
                    assert(next[k] == id);
                }
                if id == w.nodes@[j as int] {
                    assert(next[j as int] == id);
                }
            }
        }
        j += 1;
    }
    assert(w.nodes@.take(w.nodes.len() as int) =~= w.nodes@);
}

struct WayMarks {
    flags: Vec<bool>,
    ids: IdIndex,
    pulled: IdIndex,
}

fn mark_ways(ways: &Vec<Way>, seeds: &IdIndex, Ghost(p): Ghost<PoolView>, Ghost(b): Ghost<
    BoundingBox,
>) -> (m: WayMarks)
    requires
        knows_seeds(*seeds, p, b),
    ensures
        m.flags@.len() == ways@.len(),
        forall|i: int| 0 <= i < ways@.len() ==> #[trigger] m.flags@[i] == way_selected(p, b, ways@[i]),
        forall|id: ElementID| #[trigger]
            index_entries(m.ids).contains_key(id) <==> way_among(p, b, ways@, id),
        forall|id: ElementID| #[trigger]
            index_entries(m.pulled).contains_key(id) <==> pulled_among(p, b, ways@, id),
{
    let mut flags: Vec<bool> = Vec::new();
    let mut ids = index_new();
    let mut pulled = index_new();
    let mut i: usize = 0;
    while i < ways.len()
        invariant
            i <= ways.len(),
            knows_seeds(*seeds, p, b),
            flags@.len() == i,
            forall|k: int| 0 <= k < i ==> #[trigger] flags@[k] == way_selected(p, b, ways@[k]),
            forall|id: ElementID| #[trigger]
                index_entries(ids).contains_key(id) <==> way_among(
                    p,
                    b,
                    ways@.take(i as int),
                    id,
                ),
            forall|id: ElementID| #[trigger]
                index_entries(pulled).contains_key(id) <==> pulled_among(
                    p,
                    b,
                    ways@.take(i as int),
                    id,
                ),
        decreases ways.len() - i,
    {
        let w = &ways[i];
        proof {
            assert forall|id: ElementID|
                way_among(p, b, ways@.take(i + 1), id) <==> way_among(
                    p,
                    b,
                    ways@.take(i as int),
                    id,
                ) || (way_selected(p, b, ways@[i as int]) && ways@[i as int].id == id) by {
                lemma_way_step(p, b, ways@, i as int, id);
            }
            assert forall|id: ElementID|
                pulled_among(p, b, ways@.take(i + 1), id) <==> pulled_among(
                    p,
                    b,
                    ways@.take(i as int),
                    id,
                ) || (way_selected(p, b, ways@[i as int]) && ways@[i as int].nodes@.contains(id)) by {
                lemma_pulled_step(p, b, ways@, i as int, id);
            }
        }
        let hit = way_hits(w, seeds, Ghost(p), Ghost(b));
        if hit {
            let _ = index_insert(&mut ids, w.id, i);
            pull_nodes(w, i, &mut pulled);
        }
        flags.push(hit);
        i += 1;
    }
    assert(ways@.take(ways.len() as int) =~= ways@);
    WayMarks { flags, ids, pulled }
}

proof fn lemma_has_id_step(nodes: Seq<Node>, i: int, id: ElementID)
    requires
        0 <= i < nodes.len(),
    ensures
        has_id(nodes.take(i + 1), id) <==> has_id(nodes.take(i), id) || nodes[i].id == id,
{
    let seen = nodes.take(i);
    let next = nodes.take(i + 1);
    assert(next[i] == nodes[i]);
    if has_id(next, id) {
        let k = choose|k: int| 0 <= k < next.len() && (#[trigger] next[k]).id == id;
        if k < i {
            assert(seen[k] == next[k]);
        }
    }
    if has_id(seen, id) {
        let k = choose|k: int| 0 <= k < seen.len() && (#[trigger] seen[k]).id == id;
        assert(next[k] == seen[k]);
    }
}

fn mark_nodes(
    nodes: &Vec<Node>,
    seeds: &IdIndex,
    pulled: &IdIndex,
    Ghost(p): Ghost<PoolView>,
    Ghost(b): Ghost<BoundingBox>,
) -> (m: Marks)
    requires
        knows_seeds(*seeds, p, b),
        knows_pulled(*pulled, p, b),
    ensures
        m.flags@.len() == nodes@.len(),
        forall|i: int|
            0 <= i < nodes@.len() ==> #[trigger] m.flags@[i] == picks_node(p, b)(nodes@[i]),
        forall|id: ElementID| #[trigger]
            index_entries(m.ids).contains_key(id) <==> has_id(nodes@, id) && (is_seed(p, b, id)
                || is_pulled(p, b, id)),
{
    let mut flags: Vec<bool> = Vec::new();
    let mut ids = index_new();
    let mut i: usize = 0;
    while i < nodes.len()
        invariant
            i <= nodes.len(),
            knows_seeds(*seeds, p, b),
            knows_pulled(*pulled, p, b),
            flags@.len() == i,
            forall|k: int| 0 <= k < i ==> #[trigger] flags@[k] == picks_node(p, b)(nodes@[k]),
            forall|id: ElementID| #[trigger]
                index_entries(ids).contains_key(id) <==> has_id(nodes@.take(i as int), id) && (
                is_seed(p, b, id) || is_pulled(p, b, id)),
        decreases nodes.len() - i,
    {
        let n = &nodes[i];
        proof {
            assert forall|id: ElementID|
                has_id(nodes@.take(i + 1), id) <==> has_id(nodes@.take(i as int), id)
                    || nodes@[i as int].id == id by {
                lemma_has_id_step(nodes@, i as int, id);
            }
        }
        let keep = index_contains(seeds, n.id) || index_contains(pulled, n.id);
        if keep {
            let _ = index_insert(&mut ids, n.id, i);
        }
        flags.push(keep);
        i += 1;
    }
    assert(nodes@.take(nodes.len() as int) =~= nodes@);
    Marks { flags, ids }
}

fn relation_is_direct(
    r: &Relation,
    node_ids: &IdIndex,
    way_ids: &IdIndex,
    Ghost(p): Ghost<PoolView>,
    Ghost(b): Ghost<BoundingBox>,
) -> (direct: bool)
    requires
        knows_nodes(*node_ids, p, b),
        knows_ways(*way_ids, p, b),
    ensures
        direct == relation_direct(p, b, *r),
{
    let mut j: usize = 0;
    while j < r.members.len()
        invariant
            j <= r.members.len(),
            knows_nodes(*node_ids, p, b),
            knows_ways(*way_ids, p, b),
            forall|k: int| 0 <= k < j ==> !member_tied(p, b, #[trigger] r.members@[k]),
        decreases r.members.len() - j,
    {
        let m = &r.members[j];
        let tied = match m.kind {
            ElementKind::Node => index_contains(node_ids, m.id),
            ElementKind::Way => index_contains(way_ids, m.id),
            ElementKind::Relation => false,
        };
        if tied {
            assert(member_tied(p, b, r.members@[j as int]));
            return true;
        }
        j += 1;
    }
    false
}

proof fn lemma_direct_step(p: PoolView, b: BoundingBox, relations: Seq<Relation>, i: int, id: ElementID)
    requires
        0 <= i < relations.len(),
    ensures
        direct_among(p, b, relations.take(i + 1), id) <==> direct_among(
            p,
            b,
            relations.take(i),
            id,
        ) || (relation_direct(p, b, relations[i]) && relations[i].id == id),
{
    let seen = relations.take(i);
    let next = relations.take(i + 1);
    assert(next[i] == relations[i]);
    if direct_among(p, b, next, id) {
        let k = choose|k: int|
            0 <= k < next.len() && (#[trigger] next[k]).id == id && relation_direct(p, b, next[k]);
        if k < i {
            assert(seen[k] == next[k]);
        }
    }
    if direct_among(p, b, seen, id) {
        let k = choose|k: int|
            0 <= k < seen.len() && (#[trigger] seen[k]).id == id && relation_direct(p, b, seen[k]);
        assert(next[k] == seen[k]);
    }
}

fn mark_direct(
    relations: &Vec<Relation>,
    node_ids: &IdIndex,
    way_ids: &IdIndex,
    Ghost(p): Ghost<PoolView>,
    Ghost(b): Ghost<BoundingBox>,
) -> (m: Marks)
    requires
        knows_nodes(*node_ids, p, b),
        knows_ways(*way_ids, p, b),
    ensures
        m.flags@.len() == relations@.len(),
        forall|i: int|
            0 <= i < relations@.len() ==> #[trigger] m.flags@[i] == relation_direct(
                p,
                b,
                relations@[i],
            ),
        forall|id: ElementID| #[trigger]
            index_entries(m.ids).contains_key(id) <==> direct_among(p, b, relations@, id),
{
    let mut flags: Vec<bool> = Vec::new();
    let mut ids = index_new();
    let mut i: usize = 0;
    while i < relations.len()
        invariant
            i <= relations.len(),
            knows_nodes(*node_ids, p, b),
            knows_ways(*way_ids, p, b),
            flags@.len() == i,
            forall|k: int|
                0 <= k < i ==> #[trigger] flags@[k] == relation_direct(p, b, relations@[k]),
            forall|id: ElementID| #[trigger]
                index_entries(ids).contains_key(id) <==> direct_among(
                    p,
                    b,
                    relations@.take(i as int),
                    id,
                ),
        decreases relations.len() - i,
    {
        let r = &relations[i];
        proof {
            assert forall|id: ElementID|
                direct_among(p, b, relations@.take(i + 1), id) <==> direct_among(
                    p,
                    b,
                    relations@.take(i as int),
                    id,
                ) || (relation_direct(p, b, relations@[i as int]) && relations@[i as int].id
                    == id) by {
                lemma_direct_step(p, b, relations@, i as int, id);
            }
        }
        let direct = relation_is_direct(r, node_ids, way_ids, Ghost(p), Ghost(b));
        if direct {
            let _ = index_insert(&mut ids, r.id, i);
        }
        flags.push(direct);
        i += 1;
    }
    assert(relations@.take(relations.len() as int) =~= relations@);
    Marks { flags, ids }
}

fn relation_follows(r: &Relation, direct_ids: &IdIndex, Ghost(p): Ghost<PoolView>, Ghost(b): Ghost<
    BoundingBox,
>) -> (follows: bool)
    requires
        knows_direct(*direct_ids, p, b),
    ensures
        follows == exists|j: int|
            0 <= j < r.members@.len() && member_follows(p, b, #[trigger] r.members@[j]),
{
    let mut j: usize = 0;
    while j < r.members.len()
        invariant
            j <= r.members.len(),
            knows_direct(*direct_ids, p, b),
            forall|k: int| 0 <= k < j ==> !member_follows(p, b, #[trigger] r.members@[k]),
        decreases r.members.len() - j,
    {
        let m = &r.members[j];
        let hit = match m.kind {
            ElementKind::Relation => index_contains(direct_ids, m.id),
            _ => false,
        };
        if hit {
            assert(member_follows(p, b, r.members@[j as int]));
            return true;
        }
        j += 1;
    }
    false
}

fn mark_selected(
    relations: &Vec<Relation>,
    direct: &Vec<bool>,
    direct_ids: &IdIndex,
    Ghost(p): Ghost<PoolView>,
    Ghost(b): Ghost<BoundingBox>,
) -> (flags: Vec<bool>)
    requires
        knows_direct(*direct_ids, p, b),
        direct@.len() == relations@.len(),
        forall|i: int|
            0 <= i < relations@.len() ==> #[trigger] direct@[i] == relation_direct(
                p,
                b,
                relations@[i],
            ),
    ensures
        flags@.len() == relations@.len(),
        forall|i: int|
            0 <= i < relations@.len() ==> #[trigger] flags@[i] == picks_relation(p, b)(
                relations@[i],
            ),
{
    let mut flags: Vec<bool> = Vec::new();
    let mut i: usize = 0;
    while i < relations.len()
        invariant
            i <= relations.len(),
            knows_direct(*direct_ids, p, b),
            direct@.len() == relations@.len(),
            forall|k: int|
                0 <= k < relations@.len() ==> #[trigger] direct@[k] == relation_direct(
                    p,
                    b,
                    relations@[k],
                ),
            flags@.len() == i,
            forall|k: int|
                0 <= k < i ==> #[trigger] flags@[k] == picks_relation(p, b)(relations@[k]),
        decreases relations.len() - i,
    {
        let r = &relations[i];
        let keep = direct[i] || relation_follows(r, direct_ids, Ghost(p), Ghost(b));
        proof {
            assert(direct@[i as int] == relation_direct(p, b, relations@[i as int]));
            if relation_selected(p, b, *r) {
                let j = choose|j: int|
                    0 <= j < r.members@.len() && (member_tied(p, b, #[trigger] r.members@[j])
                        || member_follows(p, b, r.members@[j]));
                assert(member_tied(p, b, r.members@[j]) || member_follows(p, b, r.members@[j]));
            }
            if relation_direct(p, b, *r) {
                let j = choose|j: int|
                    0 <= j < r.members@.len() && member_tied(p, b, #[trigger] r.members@[j]);
                assert(member_tied(p, b, r.members@[j]) || member_follows(p, b, r.members@[j]));
            }
        }
        flags.push(keep);
        i += 1;
    }
    flags
}

/// The items whose flag is set, in their order.
fn keep_flagged<T>(items: Vec<T>, flags: &Vec<bool>, Ghost(pred): Ghost<spec_fn(T) -> bool>) -> (out:
    Vec<T>)
    requires
        flags@.len() == items@.len(),
        forall|i: int| 0 <= i < items@.len() ==> flags@[i] == pred(#[trigger] items@[i]),
    ensures
        out@ == items@.filter(pred),
{
    let ghost all = items@;
    let mut out: Vec<T> = Vec::new();
    let mut i: usize = 0;
    let n = flags.len();
    proof {
        lemma_filter_none(all, pred);
    }
    for item in it: items
        invariant
            it.seq() == all,
            i == it.index(),
            n == all.len(),
            flags@.len() == all.len(),
            forall|k: int| 0 <= k < all.len() ==> flags@[k] == pred(#[trigger] all[k]),
            out@ == all.take(i as int).filter(pred),
    {
        proof {
            lemma_filter_step(all, i as int, pred);
        }
        if flags[i] {
            out.push(item);
        }
        i += 1;
    }
    assert(all.take(all.len() as int) =~= all);
    out
}

/// Cuts the pool to the box: keeps the nodes, ways and relations that belong
/// to the extract by the three rules, each collection in the order of the
/// pool, and lets go of the rest.
pub fn select(pool: Pool, bbox: &BoundingBox) -> (out: Pool)
    ensures
        out@ == selection(pool@, *bbox),
{
    let ghost p = pool@;
    let ghost b = *bbox;
    let seeds = seed_index(&pool.nodes, bbox);
    let way_marks = mark_ways(&pool.ways, &seeds, Ghost(p), Ghost(b));
    let node_marks = mark_nodes(&pool.nodes, &seeds, &way_marks.pulled, Ghost(p), Ghost(b));
    let direct = mark_direct(&pool.relations, &node_marks.ids, &way_marks.ids, Ghost(p), Ghost(b));
    let chosen = mark_selected(&pool.relations, &direct.flags, &direct.ids, Ghost(p), Ghost(b));
    let Pool { nodes, ways, relations } = pool;
    let nodes = keep_flagged(nodes, &node_marks.flags, Ghost(picks_node(p, b)));
    let ways = keep_flagged(ways, &way_marks.flags, Ghost(picks_way(p, b)));
    let relations = keep_flagged(relations, &chosen, Ghost(picks_relation(p, b)));
    Pool { nodes, ways, relations }
}

/// A seed for a box is a seed for every box that covers it.
pub proof fn lemma_seed_monotone(p: PoolView, small: BoundingBox, big: BoundingBox, id: ElementID)
    requires
        big.covers(small),
        is_seed(p, small, id),
    ensures
        is_seed(p, big, id),
{
    let i = choose|i: int|
        0 <= i < p.nodes.len() && (#[trigger] p.nodes[i]).id == id && small.holds(
            p.nodes[i].lat,
            p.nodes[i].lon,
        );
    lemma_covers_holds(big, small, p.nodes[i].lat, p.nodes[i].lon);
}

/// A way of the extract for a box is a way of the extract for every box
/// that covers it.
pub proof fn lemma_way_monotone(p: PoolView, small: BoundingBox, big: BoundingBox, w: Way)
    requires
        big.covers(small),
        way_selected(p, small, w),
    ensures
        way_selected(p, big, w),
{
    if w.nodes@.len() > 0 {
        let j = choose|j: int| 0 <= j < w.nodes@.len() && is_seed(p, small, #[trigger] w.nodes@[j]);
        lemma_seed_monotone(p, small, big, w.nodes@[j]);
    }
}

/// A node id of the extract for a box is one for every box that covers it.
pub proof fn lemma_node_monotone(p: PoolView, small: BoundingBox, big: BoundingBox, id: ElementID)
    requires
        big.covers(small),
        is_seed(p, small, id) || is_pulled(p, small, id),
    ensures
        is_seed(p, big, id) || is_pulled(p, big, id),
{
    if is_seed(p, small, id) {
        lemma_seed_monotone(p, small, big, id);
    } else {
        let (i, j) = choose|i: int, j: int|
            0 <= i < p.ways.len() && 0 <= j < p.ways[i].nodes@.len() && way_selected(
                p,
                small,
                p.ways[i],
            ) && #[trigger] p.ways[i].nodes@[j] == id;
        lemma_way_monotone(p, small, big, p.ways[i]);
        assert(p.ways[i].nodes@[j] == id);
    }
}

/// A member that ties a relation to the extract for a box ties it to the
/// extract for every box that covers it.
pub proof fn lemma_member_monotone(p: PoolView, small: BoundingBox, big: BoundingBox, m: Member)
    requires
        big.covers(small),
        member_tied(p, small, m),
    ensures
        member_tied(p, big, m),
{
    match m.kind {
        ElementKind::Node => {
            lemma_node_monotone(p, small, big, m.id);
        },
        ElementKind::Way => {
            let i = choose|i: int|
                0 <= i < p.ways.len() && (#[trigger] p.ways[i]).id == m.id && way_selected(
                    p,
                    small,
                    p.ways[i],
                );
            lemma_way_monotone(p, small, big, p.ways[i]);
        },
        ElementKind::Relation => {},
    }
}

/// A relation of the extract for a box is a relation of the extract for
/// every box that covers it.
pub proof fn lemma_relation_monotone(p: PoolView, small: BoundingBox, big: BoundingBox, r: Relation)
    requires
        big.covers(small),
        relation_selected(p, small, r),
    ensures
        relation_selected(p, big, r),
{
    let j = choose|j: int|
        0 <= j < r.members@.len() && (member_tied(p, small, #[trigger] r.members@[j])
            || member_follows(p, small, r.members@[j]));
    let m = r.members@[j];
    if member_tied(p, small, m) {
        lemma_member_monotone(p, small, big, m);
    } else {
        let i = choose|i: int|
            0 <= i < p.relations.len() && (#[trigger] p.relations[i]).id == m.id && relation_direct(
                p,
                small,
                p.relations[i],
            );
        let via = p.relations[i];
        let k = choose|k: int|
            0 <= k < via.members@.len() && member_tied(p, small, #[trigger] via.members@[k]);
        lemma_member_monotone(p, small, big, via.members@[k]);
        assert(relation_direct(p, big, via));
        assert(member_follows(p, big, m));
    }
    assert(member_tied(p, big, r.members@[j]) || member_follows(p, big, r.members@[j]));
}

/// Growing the box never loses anything: whatever belongs to the extract
/// for a box belongs to the extract for every box that covers it. This
/// holds of the nodes, of the ways and of the relations.
pub proof fn lemma_selection_monotone(p: PoolView, small: BoundingBox, big: BoundingBox)
    requires
        big.covers(small),
    ensures
        forall|n: Node| #[trigger]
            selection(p, small).nodes.contains(n) ==> selection(p, big).nodes.contains(n),
        forall|w: Way| #[trigger]
            selection(p, small).ways.contains(w) ==> selection(p, big).ways.contains(w),
        forall|r: Relation| #[trigger]
            selection(p, small).relations.contains(r) ==> selection(p, big).relations.contains(r),
        forall|id: ElementID| node_included(p, small, id) ==> node_included(p, big, id),
        forall|id: ElementID| way_included(p, small, id) ==> way_included(p, big, id),
        forall|id: ElementID| relation_included(p, small, id) ==> relation_included(p, big, id),
{
    lemma_filter_members(p.nodes, picks_node(p, small));
    lemma_filter_members(p.nodes, picks_node(p, big));
    lemma_filter_members(p.ways, picks_way(p, small));
    lemma_filter_members(p.ways, picks_way(p, big));
    lemma_filter_members(p.relations, picks_relation(p, small));
    lemma_filter_members(p.relations, picks_relation(p, big));
    assert forall|n: Node| #[trigger] selection(p, small).nodes.contains(n) implies selection(
        p,
        big,
    ).nodes.contains(n) by {
        lemma_node_monotone(p, small, big, n.id);
    }
    assert forall|w: Way| #[trigger] selection(p, small).ways.contains(w) implies selection(
        p,
        big,
    ).ways.contains(w) by {
        lemma_way_monotone(p, small, big, w);
    }
    assert forall|r: Relation| #[trigger]
        selection(p, small).relations.contains(r) implies selection(p, big).relations.contains(
        r,
    ) by {
        lemma_relation_monotone(p, small, big, r);
    }
    assert forall|id: ElementID| node_included(p, small, id) implies node_included(p, big, id) by {
        lemma_node_monotone(p, small, big, id);
    }
    assert forall|id: ElementID| way_included(p, small, id) implies way_included(p, big, id) by {
        let i = choose|i: int|
            0 <= i < p.ways.len() && (#[trigger] p.ways[i]).id == id && way_selected(
                p,
                small,
                p.ways[i],
            );
        lemma_way_monotone(p, small, big, p.ways[i]);
    }
    assert forall|id: ElementID| relation_included(p, small, id) implies relation_included(
        p,
        big,
        id,
    ) by {
        let i = choose|i: int|
            0 <= i < p.relations.len() && (#[trigger] p.relations[i]).id == id
                && relation_selected(p, small, p.relations[i]);
        lemma_relation_monotone(p, small, big, p.relations[i]);
    }
}

/// Widening the box by any number of steps on each side never loses
/// anything: whatever belonged to the extract still does.
pub proof fn lemma_widening_loses_nothing(p: PoolView, b: BoundingBox, steps: u32)
    ensures
        forall|n: Node| #[trigger]
            selection(p, b).nodes.contains(n) ==> selection(p, b.widened(steps)).nodes.contains(n),
        forall|w: Way| #[trigger]
            selection(p, b).ways.contains(w) ==> selection(p, b.widened(steps)).ways.contains(w),
        forall|r: Relation| #[trigger]
            selection(p, b).relations.contains(r) ==> selection(
                p,
                b.widened(steps),
            ).relations.contains(r),
{
    lemma_widened_covers(b, steps);
    lemma_selection_monotone(p, b, b.widened(steps));
}

/// The selection has an element of a kind under an id exactly when the
/// rules include that id for that kind.
pub proof fn lemma_selection_ids(p: PoolView, b: BoundingBox, id: ElementID)
    ensures
        selection(p, b).has_node(id) <==> node_included(p, b, id),
        selection(p, b).has_way(id) <==> way_included(p, b, id),
        selection(p, b).has_relation(id) <==> relation_included(p, b, id),
{
    let s = selection(p, b);
    lemma_filter_members(p.nodes, picks_node(p, b));
    lemma_filter_members(p.ways, picks_way(p, b));
    lemma_filter_members(p.relations, picks_relation(p, b));
    if s.has_node(id) {
        let k = choose|k: int| 0 <= k < s.nodes.len() && (#[trigger] s.nodes[k]).id == id;
        assert(s.nodes.contains(s.nodes[k]));
        let i = choose|i: int| 0 <= i < p.nodes.len() && p.nodes[i] == s.nodes[k];
        assert(p.nodes[i].id == id);
    }
    if node_included(p, b, id) {
        let i = choose|i: int| 0 <= i < p.nodes.len() && (#[trigger] p.nodes[i]).id == id;
        assert(p.nodes.contains(p.nodes[i]));
        assert(s.nodes.contains(p.nodes[i]));
        let k = choose|k: int| 0 <= k < s.nodes.len() && s.nodes[k] == p.nodes[i];
        assert(s.nodes[k].id == id);
    }
    if s.has_way(id) {
        let k = choose|k: int| 0 <= k < s.ways.len() && (#[trigger] s.ways[k]).id == id;
        assert(s.ways.contains(s.ways[k]));
        let i = choose|i: int| 0 <= i < p.ways.len() && p.ways[i] == s.ways[k];
        assert(p.ways[i].id == id);
    }
    if way_included(p, b, id) {
        let i = choose|i: int|
            0 <= i < p.ways.len() && (#[trigger] p.ways[i]).id == id && way_selected(
                p,
                b,
                p.ways[i],
            );
        assert(p.ways.contains(p.ways[i]));
        assert(s.ways.contains(p.ways[i]));
        let k = choose|k: int| 0 <= k < s.ways.len() && s.ways[k] == p.ways[i];
        assert(s.ways[k].id == id);
    }
    if s.has_relation(id) {
        let k = choose|k: int| 0 <= k < s.relations.len() && (#[trigger] s.relations[k]).id == id;
        assert(s.relations.contains(s.relations[k]));
        let i = choose|i: int| 0 <= i < p.relations.len() && p.relations[i] == s.relations[k];
        assert(p.relations[i].id == id);
    }
    if relation_included(p, b, id) {
        let i = choose|i: int|
            0 <= i < p.relations.len() && (#[trigger] p.relations[i]).id == id
                && relation_selected(p, b, p.relations[i]);
        assert(p.relations.contains(p.relations[i]));
        assert(s.relations.contains(p.relations[i]));
        let k = choose|k: int| 0 <= k < s.relations.len() && s.relations[k] == p.relations[i];
        assert(s.relations[k].id == id);
    }
}

/// A way of the selection brings every node along that it refers to and
/// that the pool has: where the pool has all the nodes of its ways, so has
/// the selection.
pub proof fn lemma_selection_ways_closed(p: PoolView, b: BoundingBox)
    ensures
        forall|i: int, j: int|
            0 <= i < selection(p, b).ways.len() && 0 <= j < selection(p, b).ways[i].nodes@.len()
                && p.has_node(#[trigger] selection(p, b).ways[i].nodes@[j]) ==> selection(
                p,
                b,
            ).has_node(selection(p, b).ways[i].nodes@[j]),
        p.ways_closed() ==> selection(p, b).ways_closed(),
{
    let s = selection(p, b);
    lemma_filter_members(p.ways, picks_way(p, b));
    assert forall|i: int, j: int| 0 <= i < s.ways.len() && 0 <= j < s.ways[i].nodes@.len() implies (
    p.has_node(#[trigger] s.ways[i].nodes@[j]) ==> s.has_node(s.ways[i].nodes@[j])) && (
    p.ways_closed() ==> p.has_node(s.ways[i].nodes@[j])) by {
        let id = s.ways[i].nodes@[j];
        assert(s.ways.contains(s.ways[i]));
        let k = choose|k: int| 0 <= k < p.ways.len() && p.ways[k] == s.ways[i];
        assert(p.ways[k].nodes@[j] == id);
        assert(is_pulled(p, b, id));
        lemma_selection_ids(p, b, id);
    }
}

/// Every relation of the selection refers to at least one element of the
/// selection.
pub proof fn lemma_selection_anchored(p: PoolView, b: BoundingBox, i: int)
    requires
        0 <= i < selection(p, b).relations.len(),
    ensures
        exists|j: int|
            0 <= j < selection(p, b).relations[i].members@.len() && selection(p, b).has_member(
                #[trigger] selection(p, b).relations[i].members@[j],
            ),
{
    let s = selection(p, b);
    let r = s.relations[i];
    lemma_filter_members(p.relations, picks_relation(p, b));
    assert(s.relations.contains(r));
    assert(relation_selected(p, b, r));
    let j = choose|j: int|
        0 <= j < r.members@.len() && (member_tied(p, b, #[trigger] r.members@[j])
            || member_follows(p, b, r.members@[j]));
    let m = r.members@[j];
    lemma_selection_ids(p, b, m.id);
    if member_follows(p, b, m) && !member_tied(p, b, m) {
        let k = choose|k: int|
            0 <= k < p.relations.len() && (#[trigger] p.relations[k]).id == m.id && relation_direct(
                p,
                b,
                p.relations[k],
            );
        let via = p.relations[k];
        let t = choose|t: int|
            0 <= t < via.members@.len() && member_tied(p, b, #[trigger] via.members@[t]);
        assert(member_tied(p, b, via.members@[t]) || member_follows(p, b, via.members@[t]));
        assert(relation_selected(p, b, via));
    }
    assert(s.has_member(s.relations[i].members@[j]));
}

} // verus!
