use osm_area::area::{AreaData, ElementRef, InvariantViolation};
use osm_area::bbox::BoundingBox;
use osm_area::closure::select;
use osm_area::coord::coord_from_bits;
use osm_area::extract::extract;
use osm_area::idmap::IdMap;
use osm_area::item_type::ElementKind;
use osm_area::node::Node;
use osm_area::pool::Pool;
use osm_area::relation::{Member, Relation};
use osm_area::resolve::{resolve, DanglingReferenceError, Policy};
use osm_area::tag::store::TagStore;
use osm_area::way::Way;

fn key(x: f32) -> i32 {
    coord_from_bits(x.to_bits()).unwrap()
}

fn node(id: i64, lat: f32, lon: f32) -> Node {
    Node::new(id, key(lat), key(lon))
}

fn way(id: i64, nodes: &[i64]) -> Way {
    Way::new(id, nodes.to_vec())
}

fn member(kind: ElementKind, id: i64) -> Member {
    Member::new(kind, id, String::new())
}

fn relation(id: i64, members: Vec<Member>) -> Relation {
    Relation::new(id, members, TagStore::new())
}

fn pool(nodes: Vec<Node>, ways: Vec<Way>, relations: Vec<Relation>) -> Pool {
    Pool { nodes, ways, relations }
}

fn unit_box() -> BoundingBox {
    BoundingBox::new(key(0.0), key(0.0), key(1.0), key(1.0))
}

fn node_ids(p: &Pool) -> Vec<i64> {
    p.nodes.iter().map(|n| n.id).collect()
}

fn way_ids(p: &Pool) -> Vec<i64> {
    p.ways.iter().map(|w| w.id).collect()
}

fn relation_ids(p: &Pool) -> Vec<i64> {
    p.relations.iter().map(|r| r.id).collect()
}

fn area_relation_ids(a: &AreaData) -> Vec<i64> {
    a.relations.iter().map(|r| r.id).collect()
}

fn dangling(rk: ElementKind, referrer: i64, mk: ElementKind, missing: i64) -> DanglingReferenceError {
    DanglingReferenceError { referrer_kind: rk, referrer, missing_kind: mk, missing }
}

fn end_to_end_pool() -> Pool {
    pool(
        vec![node(1, 0.5, 0.5), node(2, 5.0, 5.0)],
        vec![way(10, &[1, 2])],
        vec![relation(100, vec![member(ElementKind::Way, 10)])],
    )
}

#[test]
fn end_to_end_extract() {
    for policy in [Policy::Strict, Policy::Lenient] {
        let x = extract(end_to_end_pool(), &unit_box(), policy).ok().unwrap();
        assert_eq!(x.area.nodes.len(), 2);
        assert!(x.area.node(1).is_some());
        assert!(x.area.node(2).is_some());
        assert_eq!(x.area.node(2).unwrap().lat, key(5.0));
        assert_eq!(x.area.ways.len(), 1);
        assert_eq!(x.area.way(10).unwrap().nodes, vec![1, 2]);
        assert_eq!(area_relation_ids(&x.area), vec![100]);
        assert!(x.dropped.is_empty());
    }
}

#[test]
fn nodes_outside_the_box_and_off_every_way_stay_out() {
    let p = pool(
        vec![node(1, 0.5, 0.5), node(2, 5.0, 5.0), node(3, 6.0, 6.0)],
        vec![way(10, &[1, 2]), way(11, &[3, 2])],
        vec![],
    );
    let s = select(p, &unit_box());
    assert_eq!(node_ids(&s), vec![1, 2]);
    assert_eq!(way_ids(&s), vec![10]);
}

#[test]
fn node_on_the_edge_of_the_box_is_a_seed() {
    let b = BoundingBox::new(key(10.0), key(20.0), key(11.0), key(21.0));
    let just_below = f32::from_bits(10.0f32.to_bits() - 1);
    assert!(just_below < 10.0);
    let p = pool(
        vec![node(1, 10.0, 20.0), node(2, just_below, 20.0), node(3, 11.0, 21.0), node(4, 10.0, 21.000002)],
        vec![],
        vec![],
    );
    let s = select(p, &b);
    assert_eq!(node_ids(&s), vec![1, 3]);
}

#[test]
fn way_brings_all_its_nodes() {
    let p = pool(
        vec![node(4, 9.0, 9.0), node(3, 8.0, 8.0), node(2, 0.25, 0.75), node(1, 7.0, 7.0)],
        vec![way(10, &[1, 2, 3, 4])],
        vec![],
    );
    let x = extract(p, &unit_box(), Policy::Strict).ok().unwrap();
    assert_eq!(x.area.nodes.len(), 4);
    let found = x.area.way_nodes(10).unwrap();
    let ids: Vec<i64> = found.iter().map(|n| n.id).collect();
    assert_eq!(ids, vec![1, 2, 3, 4]);
}

#[test]
fn selection_keeps_the_order_of_the_pool() {
    let p = pool(
        vec![node(9, 0.1, 0.1), node(3, 0.2, 0.2), node(7, 0.3, 0.3)],
        vec![way(30, &[7]), way(10, &[9]), way(20, &[3])],
        vec![
            relation(300, vec![member(ElementKind::Node, 7)]),
            relation(100, vec![member(ElementKind::Way, 10)]),
            relation(200, vec![member(ElementKind::Node, 3)]),
        ],
    );
    let s = select(p, &unit_box());
    assert_eq!(node_ids(&s), vec![9, 3, 7]);
    assert_eq!(way_ids(&s), vec![30, 10, 20]);
    assert_eq!(relation_ids(&s), vec![300, 100, 200]);
}

#[test]
fn relation_inclusion_stops_after_one_step_through_relations() {
    // C refers to a seed. B refers only to A, and A to nothing in the box.
    let p = pool(
        vec![node(1, 0.5, 0.5), node(2, 5.0, 5.0)],
        vec![],
        vec![
            relation(1, vec![member(ElementKind::Node, 2)]),
            relation(2, vec![member(ElementKind::Relation, 1)]),
            relation(3, vec![member(ElementKind::Node, 1)]),
        ],
    );
    let s = select(p, &unit_box());
    assert_eq!(relation_ids(&s), vec![3]);
}

#[test]
fn members_of_an_included_relation_are_not_pulled_in() {
    // C refers to a seed and to B; B refers only to A; A has no members.
    let build = || {
        pool(
            vec![node(1, 0.5, 0.5)],
            vec![],
            vec![
                relation(1, vec![]),
                relation(2, vec![member(ElementKind::Relation, 1)]),
                relation(3, vec![member(ElementKind::Node, 1), member(ElementKind::Relation, 2)]),
            ],
        )
    };
    let s = select(build(), &unit_box());
    assert_eq!(relation_ids(&s), vec![3]);
    let x = extract(build(), &unit_box(), Policy::Lenient).ok().unwrap();
    assert_eq!(area_relation_ids(&x.area), vec![3]);
    assert_eq!(x.area.relations[0].members.len(), 1);
    assert_eq!(x.area.relations[0].members[0].id, 1);
    assert_eq!(x.dropped, vec![dangling(ElementKind::Relation, 3, ElementKind::Relation, 2)]);
    let e = extract(build(), &unit_box(), Policy::Strict).err().unwrap();
    assert_eq!(e, dangling(ElementKind::Relation, 3, ElementKind::Relation, 2));
}

#[test]
fn relation_of_a_relation_comes_in_but_not_the_next_one() {
    // 1 refers to a seed; 2 refers to 1; 3 refers to 2; 4 refers to 3.
    let p = pool(
        vec![node(1, 0.5, 0.5)],
        vec![],
        vec![
            relation(4, vec![member(ElementKind::Relation, 3)]),
            relation(3, vec![member(ElementKind::Relation, 2)]),
            relation(2, vec![member(ElementKind::Relation, 1)]),
            relation(1, vec![member(ElementKind::Node, 1)]),
        ],
    );
    let s = select(p, &unit_box());
    assert_eq!(relation_ids(&s), vec![2, 1]);
}

#[test]
fn relation_on_a_node_that_a_way_pulled_in_is_included() {
    let p = pool(
        vec![node(1, 0.5, 0.5), node(2, 5.0, 5.0), node(3, 6.0, 6.0)],
        vec![way(10, &[1, 2])],
        vec![
            relation(100, vec![member(ElementKind::Node, 2)]),
            relation(101, vec![member(ElementKind::Node, 3)]),
            relation(102, vec![member(ElementKind::Way, 11), member(ElementKind::Way, 10)]),
        ],
    );
    let s = select(p, &unit_box());
    assert_eq!(relation_ids(&s), vec![100, 102]);
}

#[test]
fn ids_of_different_kinds_are_unrelated() {
    let p = pool(
        vec![node(1, 0.5, 0.5)],
        vec![way(1, &[7])],
        vec![
            relation(1, vec![member(ElementKind::Way, 1)]),
            relation(2, vec![member(ElementKind::Relation, 1)]),
            relation(3, vec![member(ElementKind::Node, 1)]),
        ],
    );
    let s = select(p, &unit_box());
    assert_eq!(node_ids(&s), vec![1]);
    assert!(way_ids(&s).is_empty());
    assert_eq!(relation_ids(&s), vec![3]);
}

#[test]
fn way_without_nodes_is_passed_through_and_marked() {
    let p = pool(vec![node(1, 5.0, 5.0)], vec![way(10, &[]), way(11, &[1])], vec![]);
    let x = extract(p, &unit_box(), Policy::Strict).ok().unwrap();
    assert_eq!(x.area.ways.len(), 1);
    assert!(x.area.way(10).unwrap().is_empty());
    assert!(x.area.way(11).is_none());
    assert_eq!(x.area.empty_ways(), vec![10]);
    assert_eq!(x.area.nodes.len(), 0);
    assert_eq!(x.area.way_nodes(10).unwrap().len(), 0);
}

#[test]
fn empty_pool_gives_empty_area() {
    let x = extract(Pool::new(), &unit_box(), Policy::Strict).ok().unwrap();
    assert_eq!(x.area.nodes.len(), 0);
    assert_eq!(x.area.ways.len(), 0);
    assert!(x.area.relations.is_empty());
    assert!(x.dropped.is_empty());
    assert!(x.area.empty_ways().is_empty());
}

#[test]
fn box_that_holds_nothing_gives_nothing() {
    let b = BoundingBox::new(key(50.0), key(50.0), key(51.0), key(51.0));
    let s = select(end_to_end_pool(), &b);
    assert!(s.nodes.is_empty());
    assert!(s.ways.is_empty());
    assert!(s.relations.is_empty());
}

#[test]
fn inverted_box_holds_nothing() {
    let b = BoundingBox::new(key(1.0), key(1.0), key(0.0), key(0.0));
    let s = select(end_to_end_pool(), &b);
    assert!(s.nodes.is_empty());
    assert!(s.ways.is_empty());
}

fn monotone_pool() -> Pool {
    pool(
        vec![node(1, 0.5, 0.5), node(2, 1.5, 0.5), node(3, 2.5, 0.5), node(4, 9.0, 9.0)],
        vec![way(10, &[1, 2]), way(11, &[2, 3]), way(12, &[3, 4]), way(13, &[])],
        vec![
            relation(100, vec![member(ElementKind::Way, 10)]),
            relation(101, vec![member(ElementKind::Way, 11)]),
            relation(102, vec![member(ElementKind::Relation, 101)]),
            relation(103, vec![member(ElementKind::Node, 4)]),
        ],
    )
}

#[test]
fn a_larger_box_loses_nothing() {
    let small = unit_box();
    let big = BoundingBox::new(key(-0.5), key(-0.5), key(1.75), key(1.5));
    assert!(big.encloses(&small));
    let a = select(monotone_pool(), &small);
    let b = select(monotone_pool(), &big);
    assert_eq!(node_ids(&a), vec![1, 2]);
    assert_eq!(way_ids(&a), vec![10, 13]);
    assert_eq!(relation_ids(&a), vec![100]);
    assert_eq!(node_ids(&b), vec![1, 2, 3]);
    assert_eq!(way_ids(&b), vec![10, 11, 13]);
    assert_eq!(relation_ids(&b), vec![100, 101, 102]);
    for id in node_ids(&a) {
        assert!(node_ids(&b).contains(&id));
    }
    for id in way_ids(&a) {
        assert!(way_ids(&b).contains(&id));
    }
    for id in relation_ids(&a) {
        assert!(relation_ids(&b).contains(&id));
    }
}

#[test]
fn a_box_grown_by_one_step_loses_nothing() {
    let small = unit_box();
    let a = select(monotone_pool(), &small);
    let b = select(monotone_pool(), &small.grown(1));
    for id in node_ids(&a) {
        assert!(node_ids(&b).contains(&id));
    }
    for id in way_ids(&a) {
        assert!(way_ids(&b).contains(&id));
    }
    for id in relation_ids(&a) {
        assert!(relation_ids(&b).contains(&id));
    }
}

#[test]
fn strict_resolution_fails_on_the_first_dangling_reference() {
    let p = pool(
        vec![node(1, 0.0, 0.0)],
        vec![way(10, &[1, 2, 3]), way(11, &[4])],
        vec![relation(100, vec![member(ElementKind::Way, 12)])],
    );
    let e = resolve(p, Policy::Strict).err().unwrap();
    assert_eq!(e, dangling(ElementKind::Way, 10, ElementKind::Node, 2));
}

#[test]
fn strict_resolution_reports_a_relation_when_the_ways_are_sound() {
    let p = pool(
        vec![node(1, 0.0, 0.0)],
        vec![way(10, &[1])],
        vec![relation(100, vec![member(ElementKind::Way, 10), member(ElementKind::Relation, 7)])],
    );
    let e = resolve(p, Policy::Strict).err().unwrap();
    assert_eq!(e, dangling(ElementKind::Relation, 100, ElementKind::Relation, 7));
}

#[test]
fn strict_resolution_returns_a_sound_pool_as_it_was() {
    let p = pool(
        vec![node(1, 0.0, 0.0), node(2, 1.0, 1.0)],
        vec![way(10, &[1, 2, 1])],
        vec![relation(
            100,
            vec![
                member(ElementKind::Way, 10),
                member(ElementKind::Node, 2),
                member(ElementKind::Relation, 100),
            ],
        )],
    );
    let r = resolve(p, Policy::Strict).ok().unwrap();
    assert!(r.dropped.is_empty());
    assert_eq!(node_ids(&r.pool), vec![1, 2]);
    assert_eq!(r.pool.ways[0].nodes, vec![1, 2, 1]);
    assert_eq!(r.pool.relations[0].members.len(), 3);
}

#[test]
fn lenient_resolution_drops_and_lists_dangling_references() {
    let mut w = way(10, &[1, 2, 3, 1]);
    w.name = Some("ring".to_string());
    let p = pool(
        vec![node(1, 0.0, 0.0), node(3, 1.0, 1.0)],
        vec![w, way(11, &[4])],
        vec![
            relation(
                100,
                vec![
                    Member::new(ElementKind::Way, 12, "outer".to_string()),
                    Member::new(ElementKind::Way, 10, "inner".to_string()),
                    Member::new(ElementKind::Node, 9, "label".to_string()),
                ],
            ),
            relation(101, vec![member(ElementKind::Relation, 100), member(ElementKind::Relation, 5)]),
        ],
    );
    let r = resolve(p, Policy::Lenient).ok().unwrap();
    assert_eq!(
        r.dropped,
        vec![
            dangling(ElementKind::Way, 10, ElementKind::Node, 2),
            dangling(ElementKind::Way, 11, ElementKind::Node, 4),
            dangling(ElementKind::Relation, 100, ElementKind::Way, 12),
            dangling(ElementKind::Relation, 100, ElementKind::Node, 9),
            dangling(ElementKind::Relation, 101, ElementKind::Relation, 5),
        ]
    );
    assert_eq!(r.pool.ways[0].nodes, vec![1, 3, 1]);
    assert_eq!(r.pool.ways[0].name.as_deref(), Some("ring"));
    assert_eq!(r.pool.ways[0].id, 10);
    assert!(r.pool.ways[1].nodes.is_empty());
    assert_eq!(r.pool.relations[0].members.len(), 1);
    assert_eq!(r.pool.relations[0].members[0].id, 10);
    assert_eq!(r.pool.relations[0].members[0].role, "inner");
    assert_eq!(r.pool.relations[1].members.len(), 1);
    assert_eq!(r.pool.relations[1].members[0].id, 100);
    assert_eq!(node_ids(&r.pool), vec![1, 3]);
}

#[test]
fn extract_has_no_dangling_way_reference() {
    // node 2 is missing from the pool
    let build = || pool(vec![node(1, 0.5, 0.5)], vec![way(10, &[1, 2])], vec![]);
    let x = extract(build(), &unit_box(), Policy::Lenient).ok().unwrap();
    assert_eq!(x.area.way(10).unwrap().nodes, vec![1]);
    assert_eq!(x.dropped, vec![dangling(ElementKind::Way, 10, ElementKind::Node, 2)]);
    for id in &x.area.way(10).unwrap().nodes {
        assert!(x.area.node(*id).is_some());
    }
    let e = extract(build(), &unit_box(), Policy::Strict).err().unwrap();
    assert_eq!(e, dangling(ElementKind::Way, 10, ElementKind::Node, 2));
}

#[test]
fn extract_has_no_dangling_member_reference() {
    // relation 100 refers to a seed and to a node outside the box that no way brings in
    let build = || {
        pool(
            vec![node(1, 0.5, 0.5), node(2, 5.0, 5.0)],
            vec![],
            vec![relation(100, vec![member(ElementKind::Node, 2), member(ElementKind::Node, 1)])],
        )
    };
    let x = extract(build(), &unit_box(), Policy::Lenient).ok().unwrap();
    assert_eq!(x.dropped, vec![dangling(ElementKind::Relation, 100, ElementKind::Node, 2)]);
    for r in &x.area.relations {
        assert!(!r.members.is_empty());
        for m in &r.members {
            assert!(x.area.member(m).is_some());
        }
    }
    let e = extract(build(), &unit_box(), Policy::Strict).err().unwrap();
    assert_eq!(e, dangling(ElementKind::Relation, 100, ElementKind::Node, 2));
}

#[test]
fn area_of_a_pool_with_a_loose_relation_is_refused() {
    let p = pool(
        vec![node(1, 0.0, 0.0)],
        vec![],
        vec![
            relation(100, vec![member(ElementKind::Node, 1)]),
            relation(101, vec![member(ElementKind::Node, 2), member(ElementKind::Way, 1)]),
            relation(102, vec![]),
        ],
    );
    match AreaData::from_pool(p) {
        Ok(_) => panic!("accepted a relation without any member in the area"),
        Err(e) => assert_eq!(e, InvariantViolation { relation: 101 }),
    }
}

#[test]
fn area_of_a_pool_with_a_memberless_relation_is_refused() {
    let p = pool(vec![], vec![], vec![relation(7, vec![])]);
    assert_eq!(AreaData::from_pool(p).err(), Some(InvariantViolation { relation: 7 }));
}

#[test]
fn area_of_a_sound_pool_holds_its_elements() {
    let a = AreaData::from_pool(end_to_end_pool()).ok().unwrap();
    assert_eq!(a.nodes.len(), 2);
    assert_eq!(a.ways.len(), 1);
    assert_eq!(a.relations.len(), 1);
    assert_eq!(a.node(1).unwrap().id, 1);
    assert!(a.node(3).is_none());
    assert_eq!(a.way(10).unwrap().id, 10);
    assert!(a.way(1).is_none());
    assert_eq!(a.relation(100).unwrap().id, 100);
    assert!(a.relation(10).is_none());
}

#[test]
fn area_keeps_the_last_element_of_an_id() {
    let p = pool(vec![node(1, 0.0, 0.0), node(2, 2.0, 2.0), node(1, 1.0, 1.0)], vec![], vec![]);
    let a = AreaData::assemble(p);
    assert_eq!(a.nodes.len(), 2);
    assert_eq!(a.node(1).unwrap().lat, key(1.0));
    assert_eq!(a.nodes.id_at(0), 1);
    assert_eq!(a.nodes.id_at(1), 2);
}

#[test]
fn members_resolve_to_what_they_refer_to() {
    let a = AreaData::assemble(pool(
        vec![node(1, 0.0, 0.0)],
        vec![way(1, &[1])],
        vec![relation(1, vec![member(ElementKind::Node, 1)])],
    ));
    assert!(matches!(a.member(&member(ElementKind::Node, 1)), Some(ElementRef::Node(n)) if n.id == 1));
    assert!(matches!(a.member(&member(ElementKind::Way, 1)), Some(ElementRef::Way(w)) if w.nodes == vec![1]));
    assert!(matches!(a.member(&member(ElementKind::Relation, 1)), Some(ElementRef::Relation(r)) if r.members.len() == 1));
    assert!(a.member(&member(ElementKind::Node, 2)).is_none());
    assert!(a.member(&member(ElementKind::Way, 2)).is_none());
    assert!(a.member(&member(ElementKind::Relation, 2)).is_none());
}

#[test]
fn way_nodes_are_none_where_a_node_is_missing() {
    let a = AreaData::assemble(pool(vec![node(1, 0.0, 0.0)], vec![way(10, &[1, 2])], vec![]));
    assert!(a.way_nodes(10).is_none());
    assert!(a.way_nodes(11).is_none());
}

#[test]
fn default_area_is_empty() {
    let a = AreaData::default();
    assert_eq!(a.nodes.len(), 0);
    assert_eq!(a.ways.len(), 0);
    assert!(a.relations.is_empty());
}

#[test]
fn closed_ways_are_recognised() {
    assert!(way(1, &[1, 2, 3, 1]).is_closed());
    assert!(!way(1, &[1, 2, 3]).is_closed());
    assert!(way(1, &[5]).is_closed());
    assert!(!way(1, &[]).is_closed());
    assert!(way(1, &[]).is_empty());
    assert!(!way(1, &[5]).is_empty());
}

#[test]
fn id_map_replaces_in_place() {
    let mut m: IdMap<&str> = IdMap::new();
    assert_eq!(m.len(), 0);
    assert!(!m.contains(5));
    m.insert(5, "a");
    m.insert(-3, "b");
    m.insert(5, "c");
    assert_eq!(m.len(), 2);
    assert_eq!(m.get(5), Some(&"c"));
    assert_eq!(m.get(-3), Some(&"b"));
    assert_eq!(m.get(4), None);
    assert!(m.contains(-3));
    assert_eq!(m.id_at(0), 5);
    assert_eq!(m.id_at(1), -3);
    assert_eq!(*m.at(0), "c");
    assert_eq!(*m.at(1), "b");
}

#[test]
fn placeholder_ids_work_as_keys_within_one_pool() {
    let p = pool(vec![node(-1, 0.5, 0.5), node(-2, 3.0, 3.0)], vec![way(-10, &[-1, -2])], vec![]);
    let x = extract(p, &unit_box(), Policy::Strict).ok().unwrap();
    assert_eq!(x.area.nodes.len(), 2);
    assert!(x.area.way(-10).is_some());
}

#[test]
fn a_cloned_pool_gives_the_same_extract_again() {
    let p = monotone_pool();
    let again = p.clone();
    let a = extract(p, &unit_box(), Policy::Lenient).ok().unwrap();
    let b = extract(again, &unit_box(), Policy::Lenient).ok().unwrap();
    assert_eq!(a.area.nodes.len(), b.area.nodes.len());
    assert_eq!(area_relation_ids(&a.area), area_relation_ids(&b.area));
    assert_eq!(a.dropped, b.dropped);
    let c = a.area.clone();
    assert_eq!(c.nodes.len(), a.area.nodes.len());
    assert_eq!(c.nodes.id_at(0), a.area.nodes.id_at(0));
    assert_eq!(c.way(10).unwrap().nodes, a.area.way(10).unwrap().nodes);
    assert!(c.way(11).is_none());
}
