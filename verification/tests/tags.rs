use osm_area::node::Node;
use osm_area::relation::{Member, Relation};
use osm_area::item_type::ElementKind;
use osm_area::tag::store::TagStore;
use osm_area::tag::{Tag, TagValue, Tagged};
use osm_area::way::Way;

fn tag(key: &str, value: Option<&str>) -> Tag {
    Tag::new(key.to_string(), value.map(|v| v.to_string()))
}

fn store(pairs: Vec<Tag>) -> TagStore {
    match TagStore::from_pairs(pairs) {
        Ok(s) => s,
        Err(e) => panic!("duplicate key {}", e.key),
    }
}

#[test]
fn get_after_construction_returns_the_value() {
    let s = store(vec![tag("access", Some("private"))]);
    assert!(matches!(s.get("access"), TagValue::Value("private")));
    assert!(s.has("access"));
    assert!(!s.has("missing"));
    assert!(matches!(s.get("missing"), TagValue::Absent));
}

#[test]
fn tag_without_value_is_present_without_value() {
    let s = store(vec![tag("name", None)]);
    assert!(s.has("name"));
    assert!(matches!(s.get("name"), TagValue::NoValue));
    assert!(s.get("name").is_present());
    assert_eq!(s.get("name").value(), None);
}

#[test]
fn absent_and_valueless_are_told_apart() {
    let s = store(vec![tag("name", None), tag("highway", Some("primary"))]);
    assert!(!matches!(s.get("name"), TagValue::Absent));
    assert!(matches!(s.get("other"), TagValue::Absent));
    assert!(!s.get("other").is_present());
    assert_eq!(s.get("highway").value(), Some("primary"));
}

#[test]
fn empty_store_has_nothing() {
    let s = TagStore::new();
    assert!(!s.has("access"));
    assert!(matches!(s.get("access"), TagValue::Absent));
    let d = TagStore::default();
    assert!(!d.has(""));
}

#[test]
fn several_tags_are_all_found() {
    let s = store(vec![
        tag("highway", Some("residential")),
        tag("oneway", Some("yes")),
        tag("name", Some("Elm Street")),
        tag("lit", None),
    ]);
    assert!(matches!(s.get("highway"), TagValue::Value("residential")));
    assert!(matches!(s.get("oneway"), TagValue::Value("yes")));
    assert!(matches!(s.get("name"), TagValue::Value("Elm Street")));
    assert!(matches!(s.get("lit"), TagValue::NoValue));
    assert!(!s.has("Highway"));
}

#[test]
fn duplicate_key_is_rejected() {
    let r = TagStore::from_pairs(vec![
        tag("amenity", Some("restaurant")),
        tag("name", Some("x")),
        tag("amenity", Some("bar")),
    ]);
    match r {
        Ok(_) => panic!("accepted a duplicate key"),
        Err(e) => assert_eq!(e.key, "amenity"),
    }
}

#[test]
fn first_repeated_key_is_the_one_reported() {
    let r = TagStore::from_pairs(vec![
        tag("a", None),
        tag("b", None),
        tag("b", Some("2")),
        tag("a", Some("1")),
    ]);
    match r {
        Ok(_) => panic!("accepted a duplicate key"),
        Err(e) => assert_eq!(e.key, "b"),
    }
}

#[test]
fn same_key_with_same_value_is_still_a_duplicate() {
    let r = TagStore::from_pairs(vec![tag("k", Some("v")), tag("k", Some("v"))]);
    assert!(r.is_err());
}

#[test]
fn last_write_wins_and_reports_the_replaced_keys() {
    let (s, replaced) = TagStore::from_pairs_last_wins(vec![
        tag("amenity", Some("restaurant")),
        tag("name", Some("x")),
        tag("amenity", Some("bar")),
        tag("amenity", None),
    ]);
    assert!(matches!(s.get("amenity"), TagValue::NoValue));
    assert!(matches!(s.get("name"), TagValue::Value("x")));
    assert_eq!(replaced, vec!["amenity".to_string(), "amenity".to_string()]);
}

#[test]
fn last_write_wins_without_repeats_reports_nothing() {
    let (s, replaced) = TagStore::from_pairs_last_wins(vec![tag("a", Some("1")), tag("b", Some("2"))]);
    assert!(replaced.is_empty());
    assert!(matches!(s.get("a"), TagValue::Value("1")));
    assert!(matches!(s.get("b"), TagValue::Value("2")));
}

#[test]
fn tag_length_limit_is_255_characters() {
    let long = "x".repeat(255);
    let too_long = "x".repeat(256);
    assert!(tag(&long, Some(&long)).is_valid());
    assert!(!tag(&too_long, None).is_valid());
    assert!(!tag("k", Some(&too_long)).is_valid());
    assert!(tag("k", None).is_valid());
    // characters are counted, not bytes
    let wide = "\u{00e9}".repeat(255);
    assert!(wide.len() > 255);
    assert!(tag(&wide, None).is_valid());
}

#[test]
fn untagged_node_answers_absent() {
    let n = Node::new(1, 0, 0);
    assert!(!n.has_tag("name"));
    assert!(matches!(n.get_tag("name"), TagValue::Absent));
}

#[test]
fn tagged_node_answers_through_the_capability() {
    let mut n = Node::new(1, 0, 0);
    n.tags = Some(store(vec![tag("access", Some("private")), tag("name", None)]));
    assert!(n.has_tag("access"));
    assert!(matches!(n.get_tag("access"), TagValue::Value("private")));
    assert!(n.has_tag("name"));
    assert!(matches!(n.get_tag("name"), TagValue::NoValue));
    assert!(!n.has_tag("missing"));
}

#[test]
fn way_answers_through_the_capability() {
    let mut w = Way::new(7, vec![1, 2]);
    assert!(!w.has_tag("highway"));
    assert!(matches!(w.get_tag("highway"), TagValue::Absent));
    w.tags = Some(store(vec![tag("highway", Some("primary"))]));
    assert!(w.has_tag("highway"));
    assert!(matches!(w.get_tag("highway"), TagValue::Value("primary")));
}

#[test]
fn relation_answers_through_the_capability() {
    let r = Relation::new(
        3,
        vec![Member::new(ElementKind::Way, 7, "from".to_string())],
        store(vec![tag("type", Some("restriction")), tag("restriction", Some("no_left_turn"))]),
    );
    assert!(r.has_tag("type"));
    assert!(matches!(r.get_tag("restriction"), TagValue::Value("no_left_turn")));
    assert!(matches!(r.get_tag("except"), TagValue::Absent));
}

fn is_road<T: Tagged>(element: &T) -> bool {
    element.has_tag("highway")
}

#[test]
fn one_query_serves_every_kind() {
    let mut n = Node::new(1, 0, 0);
    n.tags = Some(store(vec![tag("highway", Some("crossing"))]));
    let mut w = Way::new(2, vec![1]);
    w.tags = Some(store(vec![tag("highway", Some("primary"))]));
    let r = Relation::new(3, vec![], store(vec![tag("type", Some("route"))]));
    assert!(is_road(&n));
    assert!(is_road(&w));
    assert!(!is_road(&r));
}

#[test]
fn cloned_store_answers_as_the_store() {
    let s = store(vec![tag("access", Some("private")), tag("name", None)]);
    let c = s.clone();
    assert!(matches!(c.get("access"), TagValue::Value("private")));
    assert!(matches!(c.get("name"), TagValue::NoValue));
    assert!(!c.has("missing"));
}

#[test]
fn listed_tags_make_the_same_store_again() {
    let s = store(vec![tag("b", Some("2")), tag("a", None), tag("c", Some("3"))]);
    let mut pairs = s.to_pairs();
    assert_eq!(pairs.len(), 3);
    pairs.sort_by(|x, y| x.key.cmp(&y.key));
    assert_eq!(pairs[0].key, "a");
    assert_eq!(pairs[0].value, None);
    assert_eq!(pairs[1].key, "b");
    assert_eq!(pairs[1].value.as_deref(), Some("2"));
    assert_eq!(pairs[2].key, "c");
    let again = store(pairs);
    assert!(matches!(again.get("b"), TagValue::Value("2")));
    assert!(matches!(again.get("a"), TagValue::NoValue));
}

#[test]
fn store_with_an_overlong_value_is_not_valid() {
    let long = "v".repeat(256);
    assert!(store(vec![tag("a", Some("1")), tag("b", None)]).is_valid());
    assert!(!store(vec![tag("a", Some("1")), tag("b", Some(&long))]).is_valid());
    assert!(!store(vec![tag(&long, None)]).is_valid());
    assert!(TagStore::new().is_valid());
}
