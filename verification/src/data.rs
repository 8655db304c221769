//! The payload types that a graph carries.

use vstd::prelude::*;

verus! {

/// Names the payload type of each kind of entity. A graph stores one value
/// of the kind's type with every entity and never looks inside it; where
/// it has to make an entity that the caller did not ask for by name, it
/// stores the type's default value.
pub trait Data {
    type Face: Default;

    type Edge: Default;

    type HalfEdge: Default;

    type Vertex: Default;
}

impl Data for () {
    type Face = ();

    type Edge = ();

    type HalfEdge = ();

    type Vertex = ();
}

} // verus!
