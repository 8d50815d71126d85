//! Values of the `highway` key and its rail counterparts: what kind of way
//! a way is. The list is open, so a value outside it is valid data.
use vstd::prelude::*;

use crate::text::str_eq;

verus! {

pub const KEY: &'static str = "highway";

/// For horse riders.
pub const HORSE_PATH: &'static str = "bridleway";

/// For designated cycleways.
pub const BICYCLE_PATH: &'static str = "cycleway";

/// For designated footpaths, mainly or only for pedestrians.
pub const FOOT_PATH: &'static str = "footway";

/// A kind of footway.
pub const SIDEWALK: &'static str = "sidewalk";

/// Pedestrianised roads in shopping or residential areas.
pub const PEDESTRIAN: &'static str = "pedestrian";

pub const LIGHT_RAIL: &'static str = "light_rail";

/// A major divided highway with restricted access.
pub const FREEWAY: &'static str = "motorway";

pub const NARROW_GAUGE: &'static str = "narrow_gauge";

pub const PATH: &'static str = "path";

/// Links between larger towns.
pub const PRIMARY: &'static str = "primary";

pub const RAIL: &'static str = "rail";

/// Roads that give access to housing without connecting settlements.
pub const RESIDENTIAL: &'static str = "residential";

/// Links between towns.
pub const SECONDARY: &'static str = "secondary";

/// Access roads to or within an estate, a camp site, a car park and the like.
pub const SERVICE_ROAD: &'static str = "service";

/// Flights of steps on footways.
pub const STAIRS: &'static str = "steps";

pub const SUBWAY: &'static str = "subway";

pub const TERTIARY: &'static str = "tertiary";

/// Roads for mostly agricultural or forestry use.
pub const TWO_TRACK: &'static str = "track";

pub const TRAM: &'static str = "tram";

/// The most important roads that are not motorways.
pub const TRUNK: &'static str = "trunk";

/// The least important through roads, below tertiary.
pub const MINOR: &'static str = "unclassified";

/// The well-known way types.
pub open spec fn way_types() -> Set<Seq<char>> {
    set![
        HORSE_PATH@,
        BICYCLE_PATH@,
        FOOT_PATH@,
        SIDEWALK@,
        PEDESTRIAN@,
        LIGHT_RAIL@,
        FREEWAY@,
        NARROW_GAUGE@,
        PATH@,
        PRIMARY@,
        RAIL@,
        RESIDENTIAL@,
        SECONDARY@,
        SERVICE_ROAD@,
        STAIRS@,
        SUBWAY@,
        TERTIARY@,
        TWO_TRACK@,
        TRAM@,
        TRUNK@,
        MINOR@,
    ]
}

/// Whether `value` is one of the well-known way types.
pub fn is_known_way_type(value: &str) -> (known: bool)
    ensures
        known == way_types().contains(value@),
{
    str_eq(value, HORSE_PATH)
        || str_eq(value, BICYCLE_PATH)
        || str_eq(value, FOOT_PATH)
        || str_eq(value, SIDEWALK)
        || str_eq(value, PEDESTRIAN)
        || str_eq(value, LIGHT_RAIL)
        || str_eq(value, FREEWAY)
        || str_eq(value, NARROW_GAUGE)
        || str_eq(value, PATH)
        || str_eq(value, PRIMARY)
        || str_eq(value, RAIL)
        || str_eq(value, RESIDENTIAL)
        || str_eq(value, SECONDARY)
        || str_eq(value, SERVICE_ROAD)
        || str_eq(value, STAIRS)
        || str_eq(value, SUBWAY)
        || str_eq(value, TERTIARY)
        || str_eq(value, TWO_TRACK)
        || str_eq(value, TRAM)
        || str_eq(value, TRUNK)
        || str_eq(value, MINOR)
}

} // verus!
