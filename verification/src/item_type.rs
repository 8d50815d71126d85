//! The three kinds of element, and the names they go by on the wire.
use vstd::prelude::*;

use crate::text::str_eq;

verus! {

/// Wire name of a node.
pub const NODE: &'static str = "node";

/// Wire name of a way.
pub const WAY: &'static str = "way";

/// Wire name of a relation.
pub const RELATION: &'static str = "relation";

/// The kind of an element. Each kind has an id space of its own.
#[derive(Clone, Copy, Debug, PartialEq, Eq, Structural)]
pub enum ElementKind {
    Node,
    Way,
    Relation,
}

impl ElementKind {
    /// The wire name of each kind.
    pub open spec fn name(self) -> Seq<char> {
        match self {
            ElementKind::Node => NODE@,
            ElementKind::Way => WAY@,
            ElementKind::Relation => RELATION@,
        }
    }

    /// The name of this kind as it is written on the wire.
    pub fn as_str(&self) -> (out: &'static str)
        ensures
            out@ == self.name(),
    {
        match self {
            ElementKind::Node => NODE,
            ElementKind::Way => WAY,
            ElementKind::Relation => RELATION,
        }
    }

    /// The kind with the given wire name, if there is one.
    pub fn parse(name: &str) -> (out: Option<ElementKind>)
        ensures
            out is Some <==> name@ == NODE@ || name@ == WAY@ || name@ == RELATION@,
            out is Some ==> out->0.name() == name@,
    {
        if str_eq(name, NODE) {
            Some(ElementKind::Node)
        } else if str_eq(name, WAY) {
            Some(ElementKind::Way)
        } else if str_eq(name, RELATION) {
            Some(ElementKind::Relation)
        } else {
            None
        }
    }
}

} // verus!
