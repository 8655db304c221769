//! Read views: a handle together with the graph it belongs to, with the
//! links of the entity as methods that lead to further views.
//!
//! A view is valid when its graph is well formed and its handle names an
//! entity of the graph. Two views are equal when their handles are; the
//! graph and the payload play no part in that.

use crate::data::Data;
use crate::graph::HalfEdgeGraph;
use crate::handle::{EdgeHandle, FaceHandle, HalfEdgeHandle, VertexHandle};
use vstd::prelude::*;
use vstd::std_specs::cmp::PartialEqSpecImpl;

verus! {

/// A view of a half-edge of a graph.
pub struct HalfEdgeFn<'g, D: Data> {
    pub(crate) graph: &'g HalfEdgeGraph<D>,
    pub(crate) handle: HalfEdgeHandle,
}

impl<'g, D: Data> Clone for HalfEdgeFn<'g, D> {
    fn clone(&self) -> (r: Self)
        ensures
            r == *self,
    {
        HalfEdgeFn { graph: self.graph, handle: self.handle }
    }
}

impl<'g, D: Data> Copy for HalfEdgeFn<'g, D> {

}

impl<'g, D: Data> PartialEq for HalfEdgeFn<'g, D> {
    fn eq(&self, other: &Self) -> (r: bool) {
        self.handle == other.handle
    }
}

impl<'g, D: Data> PartialEqSpecImpl for HalfEdgeFn<'g, D> {
    open spec fn obeys_eq_spec() -> bool {
        true
    }

    open spec fn eq_spec(&self, other: &Self) -> bool {
        self.id() == other.id()
    }
}

impl<'g, D: Data> PartialEq<HalfEdgeHandle> for HalfEdgeFn<'g, D> {
    fn eq(&self, other: &HalfEdgeHandle) -> (r: bool) {
        self.handle == *other
    }
}

impl<'g, D: Data> PartialEqSpecImpl<HalfEdgeHandle> for HalfEdgeFn<'g, D> {
    open spec fn obeys_eq_spec() -> bool {
        true
    }

    open spec fn eq_spec(&self, other: &HalfEdgeHandle) -> bool {
        self.id() == *other
    }
}

impl<'g, D: Data> PartialEq<HalfEdgeFn<'g, D>> for HalfEdgeHandle {
    fn eq(&self, other: &HalfEdgeFn<'g, D>) -> (r: bool) {
        *self == other.handle
    }
}

impl<'g, D: Data> PartialEqSpecImpl<HalfEdgeFn<'g, D>> for HalfEdgeHandle {
    open spec fn obeys_eq_spec() -> bool {
        true
    }

    open spec fn eq_spec(&self, other: &HalfEdgeFn<'g, D>) -> bool {
        *self == other.id()
    }
}

impl<'g, D: Data> HalfEdgeFn<'g, D> {
    /// The graph that the view looks at.
    pub closed spec fn graph(&self) -> HalfEdgeGraph<D> {
        *self.graph
    }

    /// The handle of the entity.
    pub closed spec fn id(&self) -> HalfEdgeHandle {
        self.handle
    }

    /// The view is valid: its graph is well formed and holds the entity.
    pub open spec fn wf(&self) -> bool {
        self.graph().wf() && self.graph()@.has(self.id())
    }

    /// The view of the entity that `handle` names in `graph`.
    pub closed spec fn made_of(graph: &'g HalfEdgeGraph<D>, handle: HalfEdgeHandle) -> Self {
        HalfEdgeFn { graph, handle }
    }

    pub(crate) fn new(graph: &'g HalfEdgeGraph<D>, handle: HalfEdgeHandle) -> (r: Self)
        ensures
            r == Self::made_of(graph, handle),
            r.graph() == *graph,
            r.id() == handle,
    {
        HalfEdgeFn { graph, handle }
    }

    pub(crate) fn graph_ref(&self) -> (g: &'g HalfEdgeGraph<D>)
        ensures
            *g == self.graph(),
    {
        self.graph
    }

    /// The handle of the entity.
    pub fn handle(&self) -> (r: HalfEdgeHandle)
        ensures
            r == self.id(),
    {
        self.handle
    }

    /// The payload of the entity.
    pub fn data(&self) -> (r: &'g D::HalfEdge)
        requires
            self.wf(),
        ensures
            *r == self.graph().half_edge_data()[self.id()],
    {
        self.graph.half_edge_payload(self.handle)
    }

    /// The opposite half-edge of the same edge.
    pub fn pair(&self) -> (r: HalfEdgeFn<'g, D>)
        requires
            self.wf(),
        ensures
            r.wf(),
            r.graph() == self.graph(),
            r.id() == self.graph()@.pair(self.id()),
    {
        proof {
            self.graph@.lemma_half_edge(self.handle);
        }
        HalfEdgeFn::new(self.graph, self.graph.pair_of(self.handle))
    }

    /// The opposite half-edge of the same edge, as `pair` gives it.
    pub fn as_pair(&self) -> (r: HalfEdgeFn<'g, D>)
        requires
            self.wf(),
        ensures
            r.wf(),
            r.graph() == self.graph(),
            r.id() == self.graph()@.pair(self.id()),
    {
        proof {
            self.graph@.lemma_half_edge(self.handle);
        }
        HalfEdgeFn::new(self.graph, self.graph.pair_of(self.handle))
    }

    /// The half-edge that follows in the loop.
    pub fn next(&self) -> (r: HalfEdgeFn<'g, D>)
        requires
            self.wf(),
        ensures
            r.wf(),
            r.graph() == self.graph(),
            r.id() == self.graph()@.next(self.id()),
    {
        proof {
            self.graph@.lemma_half_edge(self.handle);
        }
        HalfEdgeFn::new(self.graph, self.graph.next_of(self.handle))
    }

    /// The half-edge that follows in the loop, as `next` gives it.
    pub fn as_next(&self) -> (r: HalfEdgeFn<'g, D>)
        requires
            self.wf(),
        ensures
            r.wf(),
            r.graph() == self.graph(),
            r.id() == self.graph()@.next(self.id()),
    {
        proof {
            self.graph@.lemma_half_edge(self.handle);
        }
        HalfEdgeFn::new(self.graph, self.graph.next_of(self.handle))
    }

    /// The half-edge that precedes in the loop.
    pub fn prev(&self) -> (r: HalfEdgeFn<'g, D>)
        requires
            self.wf(),
        ensures
            r.wf(),
            r.graph() == self.graph(),
            r.id() == self.graph()@.prev(self.id()),
    {
        proof {
            self.graph@.lemma_half_edge(self.handle);
        }
        HalfEdgeFn::new(self.graph, self.graph.prev_of(self.handle))
    }

    /// The half-edge that precedes in the loop, as `prev` gives it.
    pub fn as_prev(&self) -> (r: HalfEdgeFn<'g, D>)
        requires
            self.wf(),
        ensures
            r.wf(),
            r.graph() == self.graph(),
            r.id() == self.graph()@.prev(self.id()),
    {
        proof {
            self.graph@.lemma_half_edge(self.handle);
        }
        HalfEdgeFn::new(self.graph, self.graph.prev_of(self.handle))
    }

    /// The vertex that the half-edge points to.
    pub fn vertex(&self) -> (r: VertexFn<'g, D>)
        requires
            self.wf(),
        ensures
            r.wf(),
            r.graph() == self.graph(),
            r.id() == self.graph()@.target(self.id()),
    {
        proof {
            self.graph@.lemma_half_edge(self.handle);
        }
        VertexFn::new(self.graph, self.graph.target_of(self.handle))
    }

    /// The vertex that the half-edge points to, as `vertex` gives it.
    pub fn as_vertex(&self) -> (r: VertexFn<'g, D>)
        requires
            self.wf(),
        ensures
            r.wf(),
            r.graph() == self.graph(),
            r.id() == self.graph()@.target(self.id()),
    {
        proof {
            self.graph@.lemma_half_edge(self.handle);
        }
        VertexFn::new(self.graph, self.graph.target_of(self.handle))
    }

    /// The edge that owns the half-edge.
    pub fn edge(&self) -> (r: EdgeFn<'g, D>)
        requires
            self.wf(),
        ensures
            r.wf(),
            r.graph() == self.graph(),
            r.id() == self.graph()@.edge(self.id()),
    {
        proof {
            self.graph@.lemma_half_edge(self.handle);
        }
        EdgeFn::new(self.graph, self.graph.edge_of(self.handle))
    }

    /// The edge that owns the half-edge, as `edge` gives it.
    pub fn as_edge(&self) -> (r: EdgeFn<'g, D>)
        requires
            self.wf(),
        ensures
            r.wf(),
            r.graph() == self.graph(),
            r.id() == self.graph()@.edge(self.id()),
    {
        proof {
            self.graph@.lemma_half_edge(self.handle);
        }
        EdgeFn::new(self.graph, self.graph.edge_of(self.handle))
    }

    /// The face on whose boundary the half-edge lies, if any.
    pub fn face(&self) -> (r: Option<FaceFn<'g, D>>)
        requires
            self.wf(),
        ensures
            match r {
                Some(view) => view.wf() && view.graph() == self.graph() && self.graph()@.face(self.id())
                    == Some(view.id()),
                None => self.graph()@.face(self.id()) is None,
            },
    {
        proof {
            self.graph@.lemma_half_edge(self.handle);
        }
        match self.graph.face_of(self.handle) {
            Some(handle) => Some(FaceFn::new(self.graph, handle)),
            None => None,
        }
    }

    /// The face on whose boundary the half-edge lies, if any, as `face` gives it.
    pub fn as_face(&self) -> (r: Option<FaceFn<'g, D>>)
        requires
            self.wf(),
        ensures
            match r {
                Some(view) => view.wf() && view.graph() == self.graph() && self.graph()@.face(self.id())
                    == Some(view.id()),
                None => self.graph()@.face(self.id()) is None,
            },
    {
        proof {
            self.graph@.lemma_half_edge(self.handle);
        }
        match self.graph.face_of(self.handle) {
            Some(handle) => Some(FaceFn::new(self.graph, handle)),
            None => None,
        }
    }
}

/// A view of a vertex of a graph.
pub struct VertexFn<'g, D: Data> {
    pub(crate) graph: &'g HalfEdgeGraph<D>,
    pub(crate) handle: VertexHandle,
}

impl<'g, D: Data> Clone for VertexFn<'g, D> {
    fn clone(&self) -> (r: Self)
        ensures
            r == *self,
    {
        VertexFn { graph: self.graph, handle: self.handle }
    }
}

impl<'g, D: Data> Copy for VertexFn<'g, D> {

}

impl<'g, D: Data> PartialEq for VertexFn<'g, D> {
    fn eq(&self, other: &Self) -> (r: bool) {
        self.handle == other.handle
    }
}

impl<'g, D: Data> PartialEqSpecImpl for VertexFn<'g, D> {
    open spec fn obeys_eq_spec() -> bool {
        true
    }

    open spec fn eq_spec(&self, other: &Self) -> bool {
        self.id() == other.id()
    }
}

impl<'g, D: Data> PartialEq<VertexHandle> for VertexFn<'g, D> {
    fn eq(&self, other: &VertexHandle) -> (r: bool) {
        self.handle == *other
    }
}

impl<'g, D: Data> PartialEqSpecImpl<VertexHandle> for VertexFn<'g, D> {
    open spec fn obeys_eq_spec() -> bool {
        true
    }

    open spec fn eq_spec(&self, other: &VertexHandle) -> bool {
        self.id() == *other
    }
}

impl<'g, D: Data> PartialEq<VertexFn<'g, D>> for VertexHandle {
    fn eq(&self, other: &VertexFn<'g, D>) -> (r: bool) {
        *self == other.handle
    }
}

impl<'g, D: Data> PartialEqSpecImpl<VertexFn<'g, D>> for VertexHandle {
    open spec fn obeys_eq_spec() -> bool {
        true
    }

    open spec fn eq_spec(&self, other: &VertexFn<'g, D>) -> bool {
        *self == other.id()
    }
}

impl<'g, D: Data> VertexFn<'g, D> {
    /// The graph that the view looks at.
    pub closed spec fn graph(&self) -> HalfEdgeGraph<D> {
        *self.graph
    }

    /// The handle of the entity.
    pub closed spec fn id(&self) -> VertexHandle {
        self.handle
    }

    /// The view is valid: its graph is well formed and holds the entity.
    pub open spec fn wf(&self) -> bool {
        self.graph().wf() && self.graph()@.has_vertex(self.id())
    }

    /// The view of the entity that `handle` names in `graph`.
    pub closed spec fn made_of(graph: &'g HalfEdgeGraph<D>, handle: VertexHandle) -> Self {
        VertexFn { graph, handle }
    }

    pub(crate) fn new(graph: &'g HalfEdgeGraph<D>, handle: VertexHandle) -> (r: Self)
        ensures
            r == Self::made_of(graph, handle),
            r.graph() == *graph,
            r.id() == handle,
    {
        VertexFn { graph, handle }
    }

    pub(crate) fn graph_ref(&self) -> (g: &'g HalfEdgeGraph<D>)
        ensures
            *g == self.graph(),
    {
        self.graph
    }

    /// The handle of the entity.
    pub fn handle(&self) -> (r: VertexHandle)
        ensures
            r == self.id(),
    {
        self.handle
    }

    /// The payload of the entity.
    pub fn data(&self) -> (r: &'g D::Vertex)
        requires
            self.wf(),
        ensures
            *r == self.graph().vertex_data()[self.id()],
    {
        self.graph.vertex_payload(self.handle)
    }

    /// The representative half-edge of the vertex, which leaves it; none if the vertex is isolated.
    pub fn hedge(&self) -> (r: Option<HalfEdgeFn<'g, D>>)
        requires
            self.wf(),
        ensures
            match r {
                Some(view) => view.wf() && view.graph() == self.graph() && self.graph()@.vertices[self.id()]
                    == Some(view.id()),
                None => self.graph()@.vertices[self.id()] is None,
            },
    {
        proof {
            self.graph@.lemma_ring_from_representative_opt(self.handle);
        }
        match self.graph.hedge_of_vertex(self.handle) {
            Some(handle) => Some(HalfEdgeFn::new(self.graph, handle)),
            None => None,
        }
    }

    /// The representative half-edge of the vertex, as `hedge` gives it.
    pub fn as_hedge(&self) -> (r: Option<HalfEdgeFn<'g, D>>)
        requires
            self.wf(),
        ensures
            match r {
                Some(view) => view.wf() && view.graph() == self.graph() && self.graph()@.vertices[self.id()]
                    == Some(view.id()),
                None => self.graph()@.vertices[self.id()] is None,
            },
    {
        proof {
            self.graph@.lemma_ring_from_representative_opt(self.handle);
        }
        match self.graph.hedge_of_vertex(self.handle) {
            Some(handle) => Some(HalfEdgeFn::new(self.graph, handle)),
            None => None,
        }
    }
}

/// A view of an edge of a graph.
pub struct EdgeFn<'g, D: Data> {
    pub(crate) graph: &'g HalfEdgeGraph<D>,
    pub(crate) handle: EdgeHandle,
}

impl<'g, D: Data> Clone for EdgeFn<'g, D> {
    fn clone(&self) -> (r: Self)
        ensures
            r == *self,
    {
        EdgeFn { graph: self.graph, handle: self.handle }
    }
}

impl<'g, D: Data> Copy for EdgeFn<'g, D> {

}

impl<'g, D: Data> PartialEq for EdgeFn<'g, D> {
    fn eq(&self, other: &Self) -> (r: bool) {
        self.handle == other.handle
    }
}

impl<'g, D: Data> PartialEqSpecImpl for EdgeFn<'g, D> {
    open spec fn obeys_eq_spec() -> bool {
        true
    }

    open spec fn eq_spec(&self, other: &Self) -> bool {
        self.id() == other.id()
    }
}

impl<'g, D: Data> PartialEq<EdgeHandle> for EdgeFn<'g, D> {
    fn eq(&self, other: &EdgeHandle) -> (r: bool) {
        self.handle == *other
    }
}

impl<'g, D: Data> PartialEqSpecImpl<EdgeHandle> for EdgeFn<'g, D> {
    open spec fn obeys_eq_spec() -> bool {
        true
    }

    open spec fn eq_spec(&self, other: &EdgeHandle) -> bool {
        self.id() == *other
    }
}

impl<'g, D: Data> PartialEq<EdgeFn<'g, D>> for EdgeHandle {
    fn eq(&self, other: &EdgeFn<'g, D>) -> (r: bool) {
        *self == other.handle
    }
}

impl<'g, D: Data> PartialEqSpecImpl<EdgeFn<'g, D>> for EdgeHandle {
    open spec fn obeys_eq_spec() -> bool {
        true
    }

    open spec fn eq_spec(&self, other: &EdgeFn<'g, D>) -> bool {
        *self == other.id()
    }
}

impl<'g, D: Data> EdgeFn<'g, D> {
    /// The graph that the view looks at.
    pub closed spec fn graph(&self) -> HalfEdgeGraph<D> {
        *self.graph
    }

    /// The handle of the entity.
    pub closed spec fn id(&self) -> EdgeHandle {
        self.handle
    }

    /// The view is valid: its graph is well formed and holds the entity.
    pub open spec fn wf(&self) -> bool {
        self.graph().wf() && self.graph()@.has_edge(self.id())
    }

    /// The view of the entity that `handle` names in `graph`.
    pub closed spec fn made_of(graph: &'g HalfEdgeGraph<D>, handle: EdgeHandle) -> Self {
        EdgeFn { graph, handle }
    }

    pub(crate) fn new(graph: &'g HalfEdgeGraph<D>, handle: EdgeHandle) -> (r: Self)
        ensures
            r == Self::made_of(graph, handle),
            r.graph() == *graph,
            r.id() == handle,
    {
        EdgeFn { graph, handle }
    }

    pub(crate) fn graph_ref(&self) -> (g: &'g HalfEdgeGraph<D>)
        ensures
            *g == self.graph(),
    {
        self.graph
    }

    /// The handle of the entity.
    pub fn handle(&self) -> (r: EdgeHandle)
        ensures
            r == self.id(),
    {
        self.handle
    }

    /// The payload of the entity.
    pub fn data(&self) -> (r: &'g D::Edge)
        requires
            self.wf(),
        ensures
            *r == self.graph().edge_data()[self.id()],
    {
        self.graph.edge_payload(self.handle)
    }

    /// The representative half-edge of the edge.
    pub fn hedge(&self) -> (r: HalfEdgeFn<'g, D>)
        requires
            self.wf(),
        ensures
            r.wf(),
            r.graph() == self.graph(),
            r.id() == self.graph()@.edges[self.id()],
    {
        proof {
            self.graph@.lemma_edge(self.handle);
        }
        HalfEdgeFn::new(self.graph, self.graph.hedge_of_edge(self.handle))
    }

    /// The representative half-edge of the edge, as `hedge` gives it.
    pub fn as_hedge(&self) -> (r: HalfEdgeFn<'g, D>)
        requires
            self.wf(),
        ensures
            r.wf(),
            r.graph() == self.graph(),
            r.id() == self.graph()@.edges[self.id()],
    {
        proof {
            self.graph@.lemma_edge(self.handle);
        }
        HalfEdgeFn::new(self.graph, self.graph.hedge_of_edge(self.handle))
    }

    /// The two ends of the edge: first the vertex that the representative
    /// half-edge points to, then the one it leaves.
    pub fn vertices(&self) -> (r: [VertexFn<'g, D>; 2])
        requires
            self.wf(),
        ensures
            r[0].wf(),
            r[1].wf(),
            r[0].graph() == self.graph(),
            r[1].graph() == self.graph(),
            r[0].id() == self.graph()@.target(self.graph()@.edges[self.id()]),
            r[1].id() == self.graph()@.origin(self.graph()@.edges[self.id()]),
            r[0].id() != r[1].id(),
    {
        let hedge = self.hedge();
        let pair = hedge.pair();
        proof {
            self.graph@.lemma_half_edge(hedge.id());
        }
        [hedge.vertex(), pair.vertex()]
    }
}

/// A view of a face of a graph.
pub struct FaceFn<'g, D: Data> {
    pub(crate) graph: &'g HalfEdgeGraph<D>,
    pub(crate) handle: FaceHandle,
}

impl<'g, D: Data> Clone for FaceFn<'g, D> {
    fn clone(&self) -> (r: Self)
        ensures
            r == *self,
    {
        FaceFn { graph: self.graph, handle: self.handle }
    }
}

impl<'g, D: Data> Copy for FaceFn<'g, D> {

}

impl<'g, D: Data> PartialEq for FaceFn<'g, D> {
    fn eq(&self, other: &Self) -> (r: bool) {
        self.handle == other.handle
    }
}

impl<'g, D: Data> PartialEqSpecImpl for FaceFn<'g, D> {
    open spec fn obeys_eq_spec() -> bool {
        true
    }

    open spec fn eq_spec(&self, other: &Self) -> bool {
        self.id() == other.id()
    }
}

impl<'g, D: Data> PartialEq<FaceHandle> for FaceFn<'g, D> {
    fn eq(&self, other: &FaceHandle) -> (r: bool) {
        self.handle == *other
    }
}

impl<'g, D: Data> PartialEqSpecImpl<FaceHandle> for FaceFn<'g, D> {
    open spec fn obeys_eq_spec() -> bool {
        true
    }

    open spec fn eq_spec(&self, other: &FaceHandle) -> bool {
        self.id() == *other
    }
}

impl<'g, D: Data> PartialEq<FaceFn<'g, D>> for FaceHandle {
    fn eq(&self, other: &FaceFn<'g, D>) -> (r: bool) {
        *self == other.handle
    }
}

impl<'g, D: Data> PartialEqSpecImpl<FaceFn<'g, D>> for FaceHandle {
    open spec fn obeys_eq_spec() -> bool {
        true
    }

    open spec fn eq_spec(&self, other: &FaceFn<'g, D>) -> bool {
        *self == other.id()
    }
}

impl<'g, D: Data> FaceFn<'g, D> {
    /// The graph that the view looks at.
    pub closed spec fn graph(&self) -> HalfEdgeGraph<D> {
        *self.graph
    }

    /// The handle of the entity.
    pub closed spec fn id(&self) -> FaceHandle {
        self.handle
    }

    /// The view is valid: its graph is well formed and holds the entity.
    pub open spec fn wf(&self) -> bool {
        self.graph().wf() && self.graph()@.has_face(self.id())
    }

    /// The view of the entity that `handle` names in `graph`.
    pub closed spec fn made_of(graph: &'g HalfEdgeGraph<D>, handle: FaceHandle) -> Self {
        FaceFn { graph, handle }
    }

    pub(crate) fn new(graph: &'g HalfEdgeGraph<D>, handle: FaceHandle) -> (r: Self)
        ensures
            r == Self::made_of(graph, handle),
            r.graph() == *graph,
            r.id() == handle,
    {
        FaceFn { graph, handle }
    }

    pub(crate) fn graph_ref(&self) -> (g: &'g HalfEdgeGraph<D>)
        ensures
            *g == self.graph(),
    {
        self.graph
    }

    /// The handle of the entity.
    pub fn handle(&self) -> (r: FaceHandle)
        ensures
            r == self.id(),
    {
        self.handle
    }

    /// The payload of the entity.
    pub fn data(&self) -> (r: &'g D::Face)
        requires
            self.wf(),
        ensures
            *r == self.graph().face_data()[self.id()],
    {
        self.graph.face_payload(self.handle)
    }

    /// The representative half-edge of the face.
    pub fn hedge(&self) -> (r: HalfEdgeFn<'g, D>)
        requires
            self.wf(),
        ensures
            r.wf(),
            r.graph() == self.graph(),
            r.id() == self.graph()@.faces[self.id()],
    {
        proof {
            self.graph@.lemma_face(self.handle);
        }
        HalfEdgeFn::new(self.graph, self.graph.hedge_of_face(self.handle))
    }

    /// The representative half-edge of the face, as `hedge` gives it.
    pub fn as_hedge(&self) -> (r: HalfEdgeFn<'g, D>)
        requires
            self.wf(),
        ensures
            r.wf(),
            r.graph() == self.graph(),
            r.id() == self.graph()@.faces[self.id()],
    {
        proof {
            self.graph@.lemma_face(self.handle);
        }
        HalfEdgeFn::new(self.graph, self.graph.hedge_of_face(self.handle))
    }
}

impl<D: Data> HalfEdgeGraph<D> {
    /// A view of a vertex, or nothing if the handle names none.
    pub fn vertex(&self, handle: VertexHandle) -> (r: Option<VertexFn<'_, D>>)
        ensures
            r is Some <==> self@.has_vertex(handle),
            r matches Some(view) ==> view.graph() == *self && view.id() == handle,
    {
        if self.contains_vertex(handle) {
            Some(VertexFn::new(self, handle))
        } else {
            None
        }
    }

    /// A view of a half-edge, or nothing if the handle names none.
    pub fn half_edge(&self, handle: HalfEdgeHandle) -> (r: Option<HalfEdgeFn<'_, D>>)
        ensures
            r is Some <==> self@.has(handle),
            r matches Some(view) ==> view.graph() == *self && view.id() == handle,
    {
        if self.contains_half_edge(handle) {
            Some(HalfEdgeFn::new(self, handle))
        } else {
            None
        }
    }

    /// A view of an edge, or nothing if the handle names none.
    pub fn edge(&self, handle: EdgeHandle) -> (r: Option<EdgeFn<'_, D>>)
        ensures
            r is Some <==> self@.has_edge(handle),
            r matches Some(view) ==> view.graph() == *self && view.id() == handle,
    {
        if self.contains_edge(handle) {
            Some(EdgeFn::new(self, handle))
        } else {
            None
        }
    }

    /// A view of a face, or nothing if the handle names none.
    pub fn face(&self, handle: FaceHandle) -> (r: Option<FaceFn<'_, D>>)
        ensures
            r is Some <==> self@.has_face(handle),
            r matches Some(view) ==> view.graph() == *self && view.id() == handle,
    {
        if self.contains_face(handle) {
            Some(FaceFn::new(self, handle))
        } else {
            None
        }
    }

    /// A view of each of the vertices of the graph, in the order in which
    /// they were made.
    pub fn iter_vertices(&self) -> (r: Vec<VertexFn<'_, D>>)
        requires
            self.wf(),
        ensures
            r@.len() == self.vertex_order().len(),
            forall|j: int|
                0 <= j < r@.len() ==> (#[trigger] r@[j]).id() == self.vertex_order()[j]
                    && r@[j].graph() == *self && r@[j].wf(),
    {
        let handles = self.vertex_handles();
        let mut views: Vec<VertexFn<'_, D>> = Vec::new();
        let mut i: usize = 0;
        proof {
            self.lemma_vertex_order();
        }
        while i < handles.len()
            invariant
                self.wf(),
                handles@ == self.vertex_order(),
                0 <= i <= handles@.len(),
                views@.len() == i,
                forall|x: VertexHandle| self@.has_vertex(x) <==> self.vertex_order().contains(x),
                forall|j: int|
                    0 <= j < i ==> (#[trigger] views@[j]).id() == self.vertex_order()[j]
                        && views@[j].graph() == *self && views@[j].wf(),
            decreases handles@.len() - i,
        {
            proof {
                assert(self.vertex_order().contains(handles@[i as int]));
            }
            views.push(VertexFn::new(self, handles[i]));
            i = i + 1;
        }
        views
    }

    /// A view of each of the half-edges of the graph, in the order in which
    /// they were made.
    pub fn iter_half_edges(&self) -> (r: Vec<HalfEdgeFn<'_, D>>)
        requires
            self.wf(),
        ensures
            r@.len() == self.half_edge_order().len(),
            forall|j: int|
                0 <= j < r@.len() ==> (#[trigger] r@[j]).id() == self.half_edge_order()[j]
                    && r@[j].graph() == *self && r@[j].wf(),
    {
        let handles = self.half_edge_handles();
        let mut views: Vec<HalfEdgeFn<'_, D>> = Vec::new();
        let mut i: usize = 0;
        proof {
            self.lemma_half_edge_order();
        }
        while i < handles.len()
            invariant
                self.wf(),
                handles@ == self.half_edge_order(),
                0 <= i <= handles@.len(),
                views@.len() == i,
                forall|x: HalfEdgeHandle| self@.has(x) <==> self.half_edge_order().contains(x),
                forall|j: int|
                    0 <= j < i ==> (#[trigger] views@[j]).id() == self.half_edge_order()[j]
                        && views@[j].graph() == *self && views@[j].wf(),
            decreases handles@.len() - i,
        {
            proof {
                assert(self.half_edge_order().contains(handles@[i as int]));
            }
            views.push(HalfEdgeFn::new(self, handles[i]));
            i = i + 1;
        }
        views
    }

    /// A view of each of the edges of the graph, in the order in which
    /// they were made.
    pub fn iter_edges(&self) -> (r: Vec<EdgeFn<'_, D>>)
        requires
            self.wf(),
        ensures
            r@.len() == self.edge_order().len(),
            forall|j: int|
                0 <= j < r@.len() ==> (#[trigger] r@[j]).id() == self.edge_order()[j]
                    && r@[j].graph() == *self && r@[j].wf(),
    {
        let handles = self.edge_handles();
        let mut views: Vec<EdgeFn<'_, D>> = Vec::new();
        let mut i: usize = 0;
        proof {
            self.lemma_edge_order();
        }
        while i < handles.len()
            invariant
                self.wf(),
                handles@ == self.edge_order(),
                0 <= i <= handles@.len(),
                views@.len() == i,
                forall|x: EdgeHandle| self@.has_edge(x) <==> self.edge_order().contains(x),
                forall|j: int|
                    0 <= j < i ==> (#[trigger] views@[j]).id() == self.edge_order()[j]
                        && views@[j].graph() == *self && views@[j].wf(),
            decreases handles@.len() - i,
        {
            proof {
                assert(self.edge_order().contains(handles@[i as int]));
            }
            views.push(EdgeFn::new(self, handles[i]));
            i = i + 1;
        }
        views
    }

    /// A view of each of the faces of the graph, in the order in which
    /// they were made.
    pub fn iter_faces(&self) -> (r: Vec<FaceFn<'_, D>>)
        requires
            self.wf(),
        ensures
            r@.len() == self.face_order().len(),
            forall|j: int|
                0 <= j < r@.len() ==> (#[trigger] r@[j]).id() == self.face_order()[j]
                    && r@[j].graph() == *self && r@[j].wf(),
    {
        let handles = self.face_handles();
        let mut views: Vec<FaceFn<'_, D>> = Vec::new();
        let mut i: usize = 0;
        proof {
            self.lemma_face_order();
        }
        while i < handles.len()
            invariant
                self.wf(),
                handles@ == self.face_order(),
                0 <= i <= handles@.len(),
                views@.len() == i,
                forall|x: FaceHandle| self@.has_face(x) <==> self.face_order().contains(x),
                forall|j: int|
                    0 <= j < i ==> (#[trigger] views@[j]).id() == self.face_order()[j]
                        && views@[j].graph() == *self && views@[j].wf(),
            decreases handles@.len() - i,
        {
            proof {
                assert(self.face_order().contains(handles@[i as int]));
            }
            views.push(FaceFn::new(self, handles[i]));
            i = i + 1;
        }
        views
    }
}

} // verus!
