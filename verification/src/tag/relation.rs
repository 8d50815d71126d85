//! Values of the `type` key on a relation. The list is open, so a value
//! outside it is valid data.
use vstd::prelude::*;

use crate::text::str_eq;

verus! {

pub const EXCLUDE: &'static str = "should-be-excluded";

/// Bus routes, cycle routes and numbered highways.
pub const ROUTE: &'static str = "route";

/// Groups the variants of a route in public transport.
pub const ROUTE_MASTER: &'static str = "route_master";

/// Groups boundaries and marks enclaves.
pub const BOUNDARY: &'static str = "boundary";

/// Groups the elements of a waterway.
pub const WATERWAY: &'static str = "waterway";

/// Traffic enforcement devices such as speed cameras.
pub const ENFORCEMENT: &'static str = "enforcement";

/// The well-known relation types.
pub open spec fn relation_types() -> Set<Seq<char>> {
    set![
        EXCLUDE@,
        ROUTE@,
        ROUTE_MASTER@,
        BOUNDARY@,
        WATERWAY@,
        ENFORCEMENT@,
    ]
}

/// Whether `value` is one of the well-known relation types.
pub fn is_known_relation_type(value: &str) -> (known: bool)
    ensures
        known == relation_types().contains(value@),
{
    str_eq(value, EXCLUDE)
        || str_eq(value, ROUTE)
        || str_eq(value, ROUTE_MASTER)
        || str_eq(value, BOUNDARY)
        || str_eq(value, WATERWAY)
        || str_eq(value, ENFORCEMENT)
}

} // verus!
