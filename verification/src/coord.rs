//! Coordinates as ordered integers.
//!
//! A latitude, longitude or elevation is a single-precision number. This
//! crate holds it as the integer that orders the same way: the bit pattern's
//! magnitude, negated where the sign bit is set. Two numbers compare as their
//! integers do, the two zeros fall together, and the next representable
//! number up or down is the next integer. Patterns that are not numbers have
//! no integer.
use vstd::prelude::*;

verus! {

/// A coordinate, as the ordered integer of its single-precision bit pattern.
pub type Coord = i32;

/// The coordinate of positive infinity; its negation is that of negative
/// infinity. Every number lies between the two.
pub const COORD_INFINITY: Coord = 0x7f80_0000;

/// The coordinate of 90 degrees, the northern limit of latitude.
pub const LAT_LIMIT: Coord = 0x42b4_0000;

/// The coordinate of 180 degrees, the eastern limit of longitude.
pub const LON_LIMIT: Coord = 0x4334_0000;

/// Whether the sign bit of a bit pattern is set.
pub open spec fn bits_negative(bits: u32) -> bool {
    bits >= 0x8000_0000
}

/// A bit pattern without its sign bit.
pub open spec fn bits_magnitude(bits: u32) -> int {
    if bits_negative(bits) {
        bits - 0x8000_0000
    } else {
        bits as int
    }
}

/// Whether a bit pattern stands for a number, finite or infinite.
pub open spec fn bits_are_number(bits: u32) -> bool {
    bits_magnitude(bits) <= 0x7f80_0000
}

/// The ordered integer of a bit pattern.
pub open spec fn coord_of_bits(bits: u32) -> int {
    if bits_negative(bits) {
        -bits_magnitude(bits)
    } else {
        bits_magnitude(bits)
    }
}

/// Whether an integer is the coordinate of some number.
pub open spec fn coord_in_range(c: Coord) -> bool {
    -COORD_INFINITY <= c <= COORD_INFINITY
}

/// The bit pattern that [`coord_to_bits`] gives for a coordinate in range.
pub open spec fn bits_of_coord(c: Coord) -> int {
    if c >= 0 {
        c as int
    } else {
        0x8000_0000 - c
    }
}

/// The coordinate of a single-precision bit pattern, or `None` where the
/// pattern is not a number.
pub fn coord_from_bits(bits: u32) -> (out: Option<Coord>)
    ensures
        out is Some <==> bits_are_number(bits),
        out is Some ==> out->0 == coord_of_bits(bits) && coord_in_range(out->0),
{
    if bits >= 0x8000_0000 {
        let magnitude: u32 = bits - 0x8000_0000;
        if magnitude <= 0x7f80_0000 {
            Some(-(magnitude as i32))
        } else {
            None
        }
    } else if bits <= 0x7f80_0000 {
        Some(bits as i32)
    } else {
        None
    }
}

/// The bit pattern of a coordinate, or `None` where no number has this
/// coordinate. Zero gives the pattern of positive zero.
pub fn coord_to_bits(c: Coord) -> (out: Option<u32>)
    ensures
        out is Some <==> coord_in_range(c),
        out is Some ==> out->0 == bits_of_coord(c),
{
    if c < -COORD_INFINITY || c > COORD_INFINITY {
        None
    } else if c >= 0 {
        Some(c as u32)
    } else {
        Some(0x8000_0000u32 + ((-c) as u32))
    }
}

/// Going from a coordinate to its bit pattern and back gives the coordinate
/// again.
pub proof fn lemma_coord_round_trip(c: Coord)
    requires
        coord_in_range(c),
    ensures
        0 <= bits_of_coord(c) <= u32::MAX,
        bits_are_number(bits_of_coord(c) as u32),
        coord_of_bits(bits_of_coord(c) as u32) == c,
{
}

/// Going from a bit pattern to its coordinate and back gives the pattern
/// again, but for negative zero, which comes back as positive zero.
pub proof fn lemma_bits_round_trip(bits: u32)
    requires
        bits_are_number(bits),
    ensures
        coord_in_range(coord_of_bits(bits) as Coord),
        bits_of_coord(coord_of_bits(bits) as Coord) == if bits == 0x8000_0000 {
            0
        } else {
            bits as int
        },
{
}

/// Coordinates order bit patterns of one sign by magnitude: upwards for
/// positive patterns, downwards for negative ones, and every negative
/// pattern at or below every positive one.
pub proof fn lemma_coord_order(a: u32, b: u32)
    requires
        bits_are_number(a),
        bits_are_number(b),
    ensures
        !bits_negative(a) && !bits_negative(b) ==> (coord_of_bits(a) <= coord_of_bits(b) <==> a
            <= b),
        bits_negative(a) && bits_negative(b) ==> (coord_of_bits(a) <= coord_of_bits(b) <==> a
            >= b),
        bits_negative(a) && !bits_negative(b) ==> coord_of_bits(a) <= coord_of_bits(b),
{
}

} // verus!
