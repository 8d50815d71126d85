//! Values of the `restriction` key, which a relation of type `restriction`
//! carries.
//!
//! A value that starts with `no_` forbids the turn from the `from` member to
//! the `to` member. One that starts with `only_` says that this turn is the
//! only one allowed. The list is open, so a value outside it is valid data.
use vstd::prelude::*;

use crate::text::str_eq;

verus! {

pub const KEY: &'static str = "restriction";

/// Key for the modes of travel that a restriction does not bind.
pub const EXCEPTION: &'static str = "except";

pub const NO_RIGHT_TURN: &'static str = "no_right_turn";

pub const NO_LEFT_TURN: &'static str = "no_left_turn";

pub const NO_U_TURN: &'static str = "no_u_turn";

pub const NO_STRAIGHT: &'static str = "no_straight_on";

pub const NO_ENTRY: &'static str = "no_entry";

pub const NO_EXIT: &'static str = "no_exit";

pub const ONLY_RIGHT_TURN: &'static str = "only_right_turn";

pub const ONLY_LEFT_TURN: &'static str = "only_left_turn";

pub const ONLY_STRAIGHT: &'static str = "only_straight_on";

/// The well-known turn restrictions.
pub open spec fn restrictions() -> Set<Seq<char>> {
    set![
        NO_RIGHT_TURN@,
        NO_LEFT_TURN@,
        NO_U_TURN@,
        NO_STRAIGHT@,
        NO_ENTRY@,
        NO_EXIT@,
        ONLY_RIGHT_TURN@,
        ONLY_LEFT_TURN@,
        ONLY_STRAIGHT@,
    ]
}

/// Whether `value` is one of the well-known turn restrictions.
pub fn is_known_restriction(value: &str) -> (known: bool)
    ensures
        known == restrictions().contains(value@),
{
    str_eq(value, NO_RIGHT_TURN)
        || str_eq(value, NO_LEFT_TURN)
        || str_eq(value, NO_U_TURN)
        || str_eq(value, NO_STRAIGHT)
        || str_eq(value, NO_ENTRY)
        || str_eq(value, NO_EXIT)
        || str_eq(value, ONLY_RIGHT_TURN)
        || str_eq(value, ONLY_LEFT_TURN)
        || str_eq(value, ONLY_STRAIGHT)
}

} // verus!
