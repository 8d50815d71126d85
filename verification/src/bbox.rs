//! Bounding boxes.
use vstd::prelude::*;

use crate::coord::{Coord, COORD_INFINITY};

verus! {

/// A box on the map, given by its least and greatest latitude and longitude.
/// Its edges belong to it.
#[derive(Clone, Copy, Debug)]
pub struct BoundingBox {
    pub min_lat: Coord,
    pub min_lon: Coord,
    pub max_lat: Coord,
    pub max_lon: Coord,
}

/// `c` moved down by `steps` representable numbers, stopping at negative
/// infinity.
pub open spec fn lowered(c: Coord, steps: u32) -> int {
    if c - steps < -COORD_INFINITY {
        if c < -COORD_INFINITY {
            c as int
        } else {
            -COORD_INFINITY as int
        }
    } else {
        c - steps
    }
}

/// `c` moved up by `steps` representable numbers, stopping at positive
/// infinity.
pub open spec fn raised(c: Coord, steps: u32) -> int {
    if c + steps > COORD_INFINITY {
        if c > COORD_INFINITY {
            c as int
        } else {
            COORD_INFINITY as int
        }
    } else {
        c + steps
    }
}

fn lower(c: Coord, steps: u32) -> (out: Coord)
    ensures
        out == lowered(c, steps),
{
    let wide: i64 = c as i64 - steps as i64;
    if wide >= -COORD_INFINITY as i64 {
        wide as i32
    } else if c < -COORD_INFINITY {
        c
    } else {
        -COORD_INFINITY
    }
}

fn raise(c: Coord, steps: u32) -> (out: Coord)
    ensures
        out == raised(c, steps),
{
    let wide: i64 = c as i64 + steps as i64;
    if wide <= COORD_INFINITY as i64 {
        wide as i32
    } else if c > COORD_INFINITY {
        c
    } else {
        COORD_INFINITY
    }
}

impl BoundingBox {
    /// Whether the point lies in the box, edges included.
    pub open spec fn holds(self, lat: Coord, lon: Coord) -> bool {
        self.min_lat <= lat <= self.max_lat && self.min_lon <= lon <= self.max_lon
    }

    /// Whether every point of `inner` lies in this box.
    pub open spec fn covers(self, inner: BoundingBox) -> bool {
        &&& self.min_lat <= inner.min_lat
        &&& self.min_lon <= inner.min_lon
        &&& inner.max_lat <= self.max_lat
        &&& inner.max_lon <= self.max_lon
    }

    /// This box with every edge moved outwards by `steps` representable
    /// numbers, none of them beyond infinity.
    pub open spec fn widened(self, steps: u32) -> BoundingBox {
        BoundingBox {
            min_lat: lowered(self.min_lat, steps) as Coord,
            min_lon: lowered(self.min_lon, steps) as Coord,
            max_lat: raised(self.max_lat, steps) as Coord,
            max_lon: raised(self.max_lon, steps) as Coord,
        }
    }

    /// The box between the given edges.
    pub fn new(min_lat: Coord, min_lon: Coord, max_lat: Coord, max_lon: Coord) -> (out: Self)
        ensures
            out == (BoundingBox { min_lat, min_lon, max_lat, max_lon }),
    {
        BoundingBox { min_lat, min_lon, max_lat, max_lon }
    }

    /// Whether the point lies in the box. A point on an edge does.
    pub fn contains(&self, lat: Coord, lon: Coord) -> (inside: bool)
        ensures
            inside == self.holds(lat, lon),
    {
        self.min_lat <= lat && lat <= self.max_lat && self.min_lon <= lon && lon <= self.max_lon
    }

    /// Whether this box covers `inner`.
    pub fn encloses(&self, inner: &BoundingBox) -> (yes: bool)
        ensures
            yes == self.covers(*inner),
    {
        self.min_lat <= inner.min_lat && self.min_lon <= inner.min_lon && inner.max_lat
            <= self.max_lat && inner.max_lon <= self.max_lon
    }

    /// The box with every edge moved outwards by `steps` representable
    /// numbers, none of them beyond infinity.
    pub fn grown(&self, steps: u32) -> (out: Self)
        ensures
            out == self.widened(steps),
            out.covers(*self),
    {
        BoundingBox {
            min_lat: lower(self.min_lat, steps),
            min_lon: lower(self.min_lon, steps),
            max_lat: raise(self.max_lat, steps),
            max_lon: raise(self.max_lon, steps),
        }
    }
}

/// A box that covers another holds every point that the other holds.
pub proof fn lemma_covers_holds(outer: BoundingBox, inner: BoundingBox, lat: Coord, lon: Coord)
    requires
        outer.covers(inner),
        inner.holds(lat, lon),
    ensures
        outer.holds(lat, lon),
{
}

/// A widened box covers the box it came from.
pub proof fn lemma_widened_covers(b: BoundingBox, steps: u32)
    ensures
        b.widened(steps).covers(b),
{
}

/// The corners of a box belong to it, and a point one step outside an edge
/// does not.
pub proof fn lemma_box_edges(b: BoundingBox)
    requires
        b.min_lat <= b.max_lat,
        b.min_lon <= b.max_lon,
    ensures
        b.holds(b.min_lat, b.min_lon),
        b.holds(b.max_lat, b.max_lon),
        b.min_lat > i32::MIN ==> !b.holds((b.min_lat - 1) as Coord, b.min_lon),
        b.min_lon > i32::MIN ==> !b.holds(b.min_lat, (b.min_lon - 1) as Coord),
        b.max_lat < i32::MAX ==> !b.holds((b.max_lat + 1) as Coord, b.max_lon),
        b.max_lon < i32::MAX ==> !b.holds(b.max_lat, (b.max_lon + 1) as Coord),
{
}

} // verus!
