//! Values of the `incline` key: which way a way climbs, most of all for
//! stairs. The list is open.
use vstd::prelude::*;

use crate::text::str_eq;

verus! {

pub const KEY: &'static str = "incline";

pub const UP: &'static str = "up";

pub const DOWN: &'static str = "down";

/// The well-known inclines.
pub open spec fn inclines() -> Set<Seq<char>> {
    set![
        UP@,
        DOWN@,
    ]
}

/// Whether `value` is one of the well-known inclines.
pub fn is_known_incline(value: &str) -> (known: bool)
    ensures
        known == inclines().contains(value@),
{
    str_eq(value, UP)
        || str_eq(value, DOWN)
}

} // verus!
