//! Indexing a graph by a handle, which gives the payload of the entity
//! that the handle names. The handle has to name an entity of the graph.

use crate::data::Data;
use crate::graph::HalfEdgeGraph;
use crate::handle::{EdgeHandle, FaceHandle, HalfEdgeHandle, VertexHandle};
use vstd::prelude::*;

verus! {

impl<D: Data> std::ops::Index<VertexHandle> for HalfEdgeGraph<D> {
    type Output = D::Vertex;

    /// The payload of a vertex of the graph.
    fn index(&self, index: VertexHandle) -> (r: &D::Vertex)
        ensures
            *r == self.vertex_data()[index],
    {
        self.vertex_payload(index)
    }
}

impl<D: Data> vstd::std_specs::core::IndexSpecImpl<VertexHandle> for HalfEdgeGraph<D> {
    open spec fn index_req(&self, index: &VertexHandle) -> bool {
        self.wf() && self@.has_vertex(*index)
    }
}

impl<D: Data> std::ops::Index<HalfEdgeHandle> for HalfEdgeGraph<D> {
    type Output = D::HalfEdge;

    /// The payload of a half-edge of the graph.
    fn index(&self, index: HalfEdgeHandle) -> (r: &D::HalfEdge)
        ensures
            *r == self.half_edge_data()[index],
    {
        self.half_edge_payload(index)
    }
}

impl<D: Data> vstd::std_specs::core::IndexSpecImpl<HalfEdgeHandle> for HalfEdgeGraph<D> {
    open spec fn index_req(&self, index: &HalfEdgeHandle) -> bool {
        self.wf() && self@.has(*index)
    }
}

impl<D: Data> std::ops::Index<EdgeHandle> for HalfEdgeGraph<D> {
    type Output = D::Edge;

    /// The payload of an edge of the graph.
    fn index(&self, index: EdgeHandle) -> (r: &D::Edge)
        ensures
            *r == self.edge_data()[index],
    {
        self.edge_payload(index)
    }
}

impl<D: Data> vstd::std_specs::core::IndexSpecImpl<EdgeHandle> for HalfEdgeGraph<D> {
    open spec fn index_req(&self, index: &EdgeHandle) -> bool {
        self.wf() && self@.has_edge(*index)
    }
}

impl<D: Data> std::ops::Index<FaceHandle> for HalfEdgeGraph<D> {
    type Output = D::Face;

    /// The payload of a face of the graph.
    fn index(&self, index: FaceHandle) -> (r: &D::Face)
        ensures
            *r == self.face_data()[index],
    {
        self.face_payload(index)
    }
}

impl<D: Data> vstd::std_specs::core::IndexSpecImpl<FaceHandle> for HalfEdgeGraph<D> {
    open spec fn index_req(&self, index: &FaceHandle) -> bool {
        self.wf() && self@.has_face(*index)
    }
}

} // verus!
