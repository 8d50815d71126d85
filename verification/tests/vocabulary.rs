use osm_area::item_type::{self, ElementKind};
use osm_area::relation::role;
use osm_area::tag::{self, access, incline, relation, restriction, travel_by, way_type};

#[test]
fn known_way_types_are_known() {
    for v in [
        "bridleway", "cycleway", "footway", "sidewalk", "pedestrian", "light_rail", "motorway",
        "narrow_gauge", "path", "primary", "rail", "residential", "secondary", "service", "steps",
        "subway", "tertiary", "track", "tram", "trunk", "unclassified",
    ] {
        assert!(way_type::is_known_way_type(v), "{}", v);
    }
}

#[test]
fn unknown_way_types_are_unknown_not_errors() {
    assert!(!way_type::is_known_way_type("hoverlane"));
    assert!(!way_type::is_known_way_type(""));
    assert!(!way_type::is_known_way_type("Primary"));
    assert!(!way_type::is_known_way_type("highway"));
}

#[test]
fn way_type_constants_have_their_wire_values() {
    assert_eq!(way_type::KEY, "highway");
    assert_eq!(way_type::FREEWAY, "motorway");
    assert_eq!(way_type::MINOR, "unclassified");
    assert_eq!(way_type::STAIRS, "steps");
    assert_eq!(way_type::TWO_TRACK, "track");
}

#[test]
fn access_levels_are_known() {
    for v in [
        "agricultural", "yes", "customers", "delivery", "discouraged", "destination", "forestry",
        "no", "permissive", "private",
    ] {
        assert!(access::is_known_access(v), "{}", v);
    }
    assert!(!access::is_known_access("maybe"));
    assert_eq!(access::KEY, "access");
    assert_eq!(access::ONE_WAY, "oneway");
    assert_eq!(access::ALLOWED, "yes");
    assert_eq!(access::NONE, "no");
}

#[test]
fn relation_types_are_known() {
    for v in ["should-be-excluded", "route", "route_master", "boundary", "waterway", "enforcement"] {
        assert!(relation::is_known_relation_type(v), "{}", v);
    }
    assert!(!relation::is_known_relation_type("multipolygon"));
}

#[test]
fn restrictions_are_known() {
    for v in [
        "no_right_turn", "no_left_turn", "no_u_turn", "no_straight_on", "no_entry", "no_exit",
        "only_right_turn", "only_left_turn", "only_straight_on",
    ] {
        assert!(restriction::is_known_restriction(v), "{}", v);
    }
    assert!(!restriction::is_known_restriction("no_turn"));
    assert_eq!(restriction::KEY, "restriction");
    assert_eq!(restriction::EXCEPTION, "except");
}

#[test]
fn roles_are_known() {
    for v in [
        "from", "via", "to", "inner", "outer", "subarea", "forward", "backward", "platform",
        "label", "admin_centre",
    ] {
        assert!(role::is_known_role(v), "{}", v);
    }
    assert!(!role::is_known_role("admin_center"));
    assert!(!role::is_known_role("east"));
    assert_eq!(role::SUB_AREA, role::SUBAREA);
}

#[test]
fn travel_modes_are_known() {
    for v in [
        "bicycle", "bus", "car", "foot", "horse", "motorcar", "motorcycle", "motor_vehicle", "psv",
        "tram", "train", "vehicle",
    ] {
        assert!(travel_by::is_known_travel_mode(v), "{}", v);
    }
    assert!(!travel_by::is_known_travel_mode("rocket"));
}

#[test]
fn inclines_are_known() {
    assert!(incline::is_known_incline("up"));
    assert!(incline::is_known_incline("down"));
    assert!(!incline::is_known_incline("sideways"));
    assert_eq!(incline::KEY, "incline");
}

#[test]
fn tag_keys_have_their_wire_values() {
    assert_eq!(tag::JUNCTION_TYPE, "junction");
    assert_eq!(tag::RAIL_TYPE, "railway");
    assert_eq!(tag::TYPE, "type");
    assert_eq!(tag::NAME, "name");
}

#[test]
fn element_kinds_have_their_wire_names() {
    assert_eq!(ElementKind::Node.as_str(), "node");
    assert_eq!(ElementKind::Way.as_str(), "way");
    assert_eq!(ElementKind::Relation.as_str(), "relation");
    assert_eq!(item_type::NODE, "node");
    assert_eq!(ElementKind::parse("node"), Some(ElementKind::Node));
    assert_eq!(ElementKind::parse("way"), Some(ElementKind::Way));
    assert_eq!(ElementKind::parse("relation"), Some(ElementKind::Relation));
    assert_eq!(ElementKind::parse("area"), None);
    assert_eq!(ElementKind::parse("Node"), None);
}
