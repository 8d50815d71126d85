//! Nodes: single points on the map.
use vstd::prelude::*;

use crate::coord::{Coord, LAT_LIMIT, LON_LIMIT};
use crate::tag::store::TagStore;
use crate::tag::{TagValue, TagView, Tagged};
use crate::element::Element;
use crate::{ElementID, Timestamp};

verus! {

/// A point on the map, given by its id, latitude and longitude.
///
/// Latitude is positive north of the equator and longitude positive east of
/// Greenwich. At the poles the longitude is arbitrary. Nodes that only serve
/// as points of a way are often untagged.
#[derive(Clone, Debug)]
pub struct Node {
    pub id: ElementID,
    /// Latitude in degrees, between -90 and 90.
    pub lat: Coord,
    /// Longitude in degrees, between -180 and 180.
    pub lon: Coord,
    /// Elevation, where known.
    pub ele: Option<Coord>,
    pub open: Option<bool>,
    pub date: Option<u32>,
    pub timestamp: Timestamp,
    pub tags: Option<TagStore>,
}

impl Node {
    /// Whether latitude and longitude lie within their limits.
    pub open spec fn in_range(self) -> bool {
        -LAT_LIMIT <= self.lat <= LAT_LIMIT && -LON_LIMIT <= self.lon <= LON_LIMIT
    }

    /// An untagged node at the given point.
    pub fn new(id: ElementID, lat: Coord, lon: Coord) -> (out: Self)
        ensures
            out.id == id,
            out.lat == lat,
            out.lon == lon,
            out.ele is None,
            out.open is None,
            out.date is None,
            out.timestamp is None,
            out.tags is None,
    {
        Node { id, lat, lon, ele: None, open: None, date: None, timestamp: None, tags: None }
    }

    /// Latitude and longitude of the node.
    pub fn point(&self) -> (out: (Coord, Coord))
        ensures
            out == (self.lat, self.lon),
    {
        (self.lat, self.lon)
    }

    /// Whether latitude and longitude lie within their limits.
    pub fn is_in_range(&self) -> (yes: bool)
        ensures
            yes == self.in_range(),
    {
        -LAT_LIMIT <= self.lat && self.lat <= LAT_LIMIT && -LON_LIMIT <= self.lon && self.lon
            <= LON_LIMIT
    }
}

impl Default for Node {
    fn default() -> (out: Self)
        ensures
            out.id == 0,
            out.lat == 0,
            out.lon == 0,
            out.ele is None,
            out.open is None,
            out.date is None,
            out.timestamp is None,
            out.tags is None,
    {
        Node::new(0, 0, 0)
    }
}

impl Element for Node {
    open spec fn ident(&self) -> ElementID {
        self.id
    }

    fn id(&self) -> (id: ElementID) {
        self.id
    }
}

impl Tagged for Node {
    open spec fn tag_view(&self) -> TagView {
        match self.tags {
            Some(tags) => tags@,
            None => Map::empty(),
        }
    }

    fn get_tag<'a>(&'a self, key: &str) -> (found: TagValue<'a>) {
        match &self.tags {
            Some(tags) => tags.get(key),
            None => TagValue::Absent,
        }
    }

    fn has_tag(&self, key: &str) -> (present: bool) {
        match &self.tags {
            Some(tags) => tags.has(key),
            None => false,
        }
    }
}

} // verus!
