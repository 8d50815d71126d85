//! Well-known roles of relation members.
//!
//! A role says what part a member plays in its relation: in a multipolygon,
//! `inner` and `outer` tell the rings apart; in a turn restriction, `from`,
//! `via` and `to` name the legs. Roles are free text, so a role outside this
//! list is valid data.
use vstd::prelude::*;

use crate::text::str_eq;

verus! {

/// Where a turn restriction starts.
pub const FROM: &'static str = "from";

/// What a turn restriction passes through.
pub const VIA: &'static str = "via";

/// Where a turn restriction ends.
pub const TO: &'static str = "to";

/// Relative polygon position.
pub const INNER: &'static str = "inner";

/// Relative polygon position.
pub const OUTER: &'static str = "outer";

/// Relative polygon position.
pub const SUBAREA: &'static str = "subarea";

/// Direction of travel, as on a bus route.
pub const FORWARD: &'static str = "forward";

/// Direction of travel, as on a bus route.
pub const BACKWARD: &'static str = "backward";

/// A platform of a public transport route.
pub const PLATFORM: &'static str = "platform";

/// The node at which the name of an area is drawn.
pub const LABEL: &'static str = "label";

/// The capital of an administrative area.
pub const ADMIN_CENTER: &'static str = "admin_centre";

/// Another name for [`SUBAREA`].
pub const SUB_AREA: &'static str = "subarea";

/// The well-known roles.
pub open spec fn known_roles() -> Set<Seq<char>> {
    set![
        FROM@,
        VIA@,
        TO@,
        INNER@,
        OUTER@,
        SUBAREA@,
        FORWARD@,
        BACKWARD@,
        PLATFORM@,
        LABEL@,
        ADMIN_CENTER@,
    ]
}

/// Whether `value` is one of the well-known roles.
pub fn is_known_role(value: &str) -> (known: bool)
    ensures
        known == known_roles().contains(value@),
{
    str_eq(value, FROM) || str_eq(value, VIA) || str_eq(value, TO) || str_eq(value, INNER)
        || str_eq(value, OUTER) || str_eq(value, SUBAREA) || str_eq(value, FORWARD) || str_eq(
        value,
        BACKWARD,
    ) || str_eq(value, PLATFORM) || str_eq(value, LABEL) || str_eq(value, ADMIN_CENTER)
}

} // verus!
