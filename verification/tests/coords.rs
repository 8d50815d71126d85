use osm_area::bbox::BoundingBox;
use osm_area::coord::{coord_from_bits, coord_to_bits, COORD_INFINITY, LAT_LIMIT, LON_LIMIT};
use osm_area::node::Node;
use osm_area::{is_persistent, is_placeholder};

fn key(x: f32) -> i32 {
    coord_from_bits(x.to_bits()).unwrap()
}

fn next_down(x: f32) -> f32 {
    f32::from_bits(coord_to_bits(key(x) - 1).unwrap())
}

#[test]
fn coordinates_order_as_their_numbers_do() {
    let samples: [f32; 13] = [
        f32::NEG_INFINITY, -180.0, -90.0, -1.5, -1.0e-30, -1.0e-45, 0.0, 1.0e-45, 1.0e-30, 0.25,
        89.99999, 90.0, f32::INFINITY,
    ];
    for a in samples {
        for b in samples {
            assert_eq!(a < b, key(a) < key(b), "{} {}", a, b);
            assert_eq!(a == b, key(a) == key(b), "{} {}", a, b);
        }
    }
}

#[test]
fn both_zeros_have_coordinate_zero() {
    assert_eq!(key(0.0), 0);
    assert_eq!(key(-0.0), 0);
    assert_eq!(coord_to_bits(0), Some(0));
}

#[test]
fn not_a_number_has_no_coordinate() {
    assert_eq!(coord_from_bits(f32::NAN.to_bits()), None);
    assert_eq!(coord_from_bits(0x7f80_0001), None);
    assert_eq!(coord_from_bits(0xffff_ffff), None);
    assert_eq!(coord_from_bits(0x7f80_0000), Some(COORD_INFINITY));
    assert_eq!(coord_from_bits(0xff80_0000), Some(-COORD_INFINITY));
}

#[test]
fn coordinate_and_bits_round_trip() {
    for x in [51.5074f32, -0.1278, 90.0, -180.0, 1.0e-40, -1.0e-40, 3.4e38] {
        let back = f32::from_bits(coord_to_bits(key(x)).unwrap());
        assert_eq!(back, x);
    }
    assert_eq!(coord_to_bits(COORD_INFINITY + 1), None);
    assert_eq!(coord_to_bits(-COORD_INFINITY - 1), None);
    assert_eq!(coord_to_bits(i32::MIN), None);
    assert_eq!(coord_to_bits(-1), Some(0x8000_0001));
}

#[test]
fn limits_are_90_and_180_degrees() {
    assert_eq!(LAT_LIMIT, key(90.0));
    assert_eq!(LON_LIMIT, key(180.0));
    assert_eq!(-LAT_LIMIT, key(-90.0));
    assert_eq!(-LON_LIMIT, key(-180.0));
}

#[test]
fn one_step_down_is_the_next_smaller_number() {
    let x = 48.2f32;
    let below = next_down(x);
    assert!(below < x);
    assert_eq!(key(below), key(x) - 1);
    let z = next_down(0.0);
    assert!(z < 0.0);
    assert_eq!(z, -f32::from_bits(1));
}

#[test]
fn node_range_check_follows_the_limits() {
    assert!(Node::new(1, key(90.0), key(180.0)).is_in_range());
    assert!(Node::new(1, key(-90.0), key(-180.0)).is_in_range());
    assert!(Node::new(1, 0, 0).is_in_range());
    assert!(!Node::new(1, key(90.00001), 0).is_in_range());
    assert!(!Node::new(1, 0, key(-180.00002)).is_in_range());
}

#[test]
fn node_point_is_latitude_then_longitude() {
    let n = Node::new(5, key(12.5), key(-7.25));
    assert_eq!(n.point(), (key(12.5), key(-7.25)));
}

#[test]
fn box_edges_belong_to_the_box() {
    let b = BoundingBox::new(key(10.0), key(20.0), key(11.0), key(21.0));
    assert!(b.contains(key(10.0), key(20.0)));
    assert!(b.contains(key(11.0), key(21.0)));
    assert!(b.contains(key(10.0), key(21.0)));
    assert!(b.contains(key(10.5), key(20.5)));
}

#[test]
fn one_step_outside_an_edge_is_outside() {
    let b = BoundingBox::new(key(10.0), key(20.0), key(11.0), key(21.0));
    assert!(!b.contains(key(next_down(10.0)), key(20.5)));
    assert!(!b.contains(key(10.0) - 1, key(20.0)));
    assert!(!b.contains(key(10.0), key(20.0) - 1));
    assert!(!b.contains(key(11.0) + 1, key(21.0)));
    assert!(!b.contains(key(11.0), key(21.0) + 1));
}

#[test]
fn box_across_zero_holds_both_signs() {
    let b = BoundingBox::new(key(-1.0), key(-1.0), key(1.0), key(1.0));
    assert!(b.contains(key(-0.5), key(0.5)));
    assert!(b.contains(key(0.0), key(-0.0)));
    assert!(!b.contains(key(-1.0000001), key(0.0)));
}

#[test]
fn grown_box_covers_the_box() {
    let b = BoundingBox::new(key(10.0), key(20.0), key(11.0), key(21.0));
    let g = b.grown(3);
    assert_eq!(g.min_lat, key(10.0) - 3);
    assert_eq!(g.min_lon, key(20.0) - 3);
    assert_eq!(g.max_lat, key(11.0) + 3);
    assert_eq!(g.max_lon, key(21.0) + 3);
    assert!(g.encloses(&b));
    assert!(!b.encloses(&g));
    assert!(b.encloses(&b));
    assert!(b.grown(0).encloses(&b) && b.encloses(&b.grown(0)));
}

#[test]
fn growing_stops_at_infinity() {
    let b = BoundingBox::new(-COORD_INFINITY + 1, 0, COORD_INFINITY - 2, 0);
    let g = b.grown(u32::MAX);
    assert_eq!(g.min_lat, -COORD_INFINITY);
    assert_eq!(g.max_lat, COORD_INFINITY);
    assert_eq!(g.min_lon, -COORD_INFINITY);
    assert_eq!(g.max_lon, COORD_INFINITY);
}

#[test]
fn positive_ids_are_persistent_and_negative_ones_placeholders() {
    assert!(is_persistent(1));
    assert!(!is_persistent(0));
    assert!(!is_persistent(-1));
    assert!(is_placeholder(-1));
    assert!(!is_placeholder(0));
    assert!(!is_placeholder(7));
}
