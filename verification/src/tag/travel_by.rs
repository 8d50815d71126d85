//! Modes of travel, as they occur as keys of access tags and as values of
//! restriction exceptions. The list is open.
use vstd::prelude::*;

use crate::text::str_eq;

verus! {

pub const BICYCLE: &'static str = "bicycle";

pub const BUS: &'static str = "bus";

pub const CAR: &'static str = "car";

pub const FOOT: &'static str = "foot";

pub const HORSE: &'static str = "horse";

pub const MOTOR_CAR: &'static str = "motorcar";

pub const MOTORCYCLE: &'static str = "motorcycle";

pub const MOTOR_VEHICLE: &'static str = "motor_vehicle";

pub const SERVICE_VEHICLE: &'static str = "psv";

pub const TRAM: &'static str = "tram";

pub const TRAIN: &'static str = "train";

pub const VEHICLE: &'static str = "vehicle";

/// The well-known modes of travel.
pub open spec fn travel_modes() -> Set<Seq<char>> {
    set![
        BICYCLE@,
        BUS@,
        CAR@,
        FOOT@,
        HORSE@,
        MOTOR_CAR@,
        MOTORCYCLE@,
        MOTOR_VEHICLE@,
        SERVICE_VEHICLE@,
        TRAM@,
        TRAIN@,
        VEHICLE@,
    ]
}

/// Whether `value` is one of the well-known modes of travel.
pub fn is_known_travel_mode(value: &str) -> (known: bool)
    ensures
        known == travel_modes().contains(value@),
{
    str_eq(value, BICYCLE)
        || str_eq(value, BUS)
        || str_eq(value, CAR)
        || str_eq(value, FOOT)
        || str_eq(value, HORSE)
        || str_eq(value, MOTOR_CAR)
        || str_eq(value, MOTORCYCLE)
        || str_eq(value, MOTOR_VEHICLE)
        || str_eq(value, SERVICE_VEHICLE)
        || str_eq(value, TRAM)
        || str_eq(value, TRAIN)
        || str_eq(value, VEHICLE)
}

} // verus!
