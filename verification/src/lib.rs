//! A bounding-box extract of the OpenStreetMap element graph: nodes, ways and
//! relations, their tags, and the rules by which an extract is cut out of a
//! pool of elements so that its references resolve.
use vstd::prelude::*;

pub mod area;
pub mod bbox;
pub mod closure;
pub mod coord;
pub mod element;
pub mod extract;
pub mod idmap;
pub mod index;
pub mod item_type;
pub mod node;
pub mod pool;
pub mod relation;
pub mod resolve;
pub mod seqs;
pub mod tag;
pub mod text;
pub mod way;

pub use area::AreaData;
pub use node::Node;
pub use relation::{role, Member, Relation};
pub use tag::{Tag, Tagged};
pub use way::Way;

verus! {

/// Identity of an element. Nodes, ways and relations each have an id space of
/// their own, so equal ids of different kinds are unrelated.
///
/// Positive ids belong to stored elements. Negative ids are placeholders that
/// are valid inside one batch of new elements only.
pub type ElementID = i64;

/// ISO 8601 time of the last change, where known.
pub type Timestamp = Option<String>;

/// Whether the id belongs to a stored element.
pub fn is_persistent(id: ElementID) -> (yes: bool)
    ensures
        yes == (id > 0),
{
    id > 0
}

/// Whether the id is a placeholder for an element that is yet to be stored.
/// Such an id means something within one batch only and is no key to match
/// elements of separate fetches by.
pub fn is_placeholder(id: ElementID) -> (yes: bool)
    ensures
        yes == (id < 0),
{
    id < 0
}

} // verus!
