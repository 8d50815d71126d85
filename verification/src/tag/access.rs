//! Values of the `access` key.
//!
//! Access values say who may legally use a road, a path, a building entrance
//! or a facility. They describe the law, not the habit: a footpath that
//! cyclists use without leave is still a footpath. The list is open, so a
//! value outside it is valid data.
use vstd::prelude::*;

use crate::text::str_eq;

verus! {

pub const KEY: &'static str = "access";

/// Key that takes `yes` or `no`.
pub const ONE_WAY: &'static str = "oneway";

/// Access only for agricultural vehicles.
pub const AGRICULTURAL: &'static str = "agricultural";

/// The public has an official, legally enshrined right of access.
pub const ALLOWED: &'static str = "yes";

/// Access only for customers.
pub const CUSTOMERS: &'static str = "customers";

/// Access only for deliveries.
pub const DELIVERY: &'static str = "delivery";

/// Access is legal but discouraged.
pub const DISCOURAGED: &'static str = "discouraged";

/// Access only to reach a destination there.
pub const DESTINATION: &'static str = "destination";

/// Only forestry traffic is allowed.
pub const FORESTRY: &'static str = "forestry";

/// No access for the general public.
pub const NONE: &'static str = "no";

/// The owner grants access, and may withdraw it.
pub const PERMISSIVE: &'static str = "permissive";

/// Only with the owner's permission.
pub const PRIVATE: &'static str = "private";

/// The well-known access levels.
pub open spec fn access_levels() -> Set<Seq<char>> {
    set![
        AGRICULTURAL@,
        ALLOWED@,
        CUSTOMERS@,
        DELIVERY@,
        DISCOURAGED@,
        DESTINATION@,
        FORESTRY@,
        NONE@,
        PERMISSIVE@,
        PRIVATE@,
    ]
}

/// Whether `value` is one of the well-known access levels.
pub fn is_known_access(value: &str) -> (known: bool)
    ensures
        known == access_levels().contains(value@),
{
    str_eq(value, AGRICULTURAL)
        || str_eq(value, ALLOWED)
        || str_eq(value, CUSTOMERS)
        || str_eq(value, DELIVERY)
        || str_eq(value, DISCOURAGED)
        || str_eq(value, DESTINATION)
        || str_eq(value, FORESTRY)
        || str_eq(value, NONE)
        || str_eq(value, PERMISSIVE)
        || str_eq(value, PRIVATE)
}

} // verus!
