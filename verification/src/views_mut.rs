//! Mutable views: a handle together with the graph it belongs to, borrowed
//! for writing. Through a mutable view the payloads of the graph can be
//! changed; its links cannot.
//!
//! The two fields of a mutable view are open to the caller, so that what
//! is stated of a view can speak of the graph as the view leaves it. A
//! view is valid when its graph is well formed and its handle names an
//! entity of the graph.

use crate::data::Data;
use crate::graph::HalfEdgeGraph;
use crate::handle::{EdgeHandle, FaceHandle, HalfEdgeHandle, VertexHandle};
use crate::views::{EdgeFn, FaceFn, HalfEdgeFn, VertexFn};
use vstd::prelude::*;

verus! {

/// A view of a half-edge of a graph, for writing.
pub struct HalfEdgeFnMut<'g, D: Data> {
    pub graph: &'g mut HalfEdgeGraph<D>,
    pub handle: HalfEdgeHandle,
}

impl<'g, D: Data> HalfEdgeFnMut<'g, D> {
    /// The view is valid: its graph is well formed and holds the entity.
    pub open spec fn wf(&self) -> bool {
        self.graph.wf() && self.graph@.has(self.handle)
    }

    pub(crate) fn new(graph: &'g mut HalfEdgeGraph<D>, handle: HalfEdgeHandle) -> (r: Self)
        ensures
            *r.graph == *old(graph),
            r.handle == handle,
            *final(graph) == *final(r.graph),
    {
        HalfEdgeFnMut { graph, handle }
    }

    /// The handle of the entity.
    pub fn handle(&self) -> (r: HalfEdgeHandle)
        ensures
            r == self.handle,
    {
        self.handle
    }

    /// The payload of the entity.
    pub fn data(&self) -> (r: &D::HalfEdge)
        requires
            self.wf(),
        ensures
            *r == old(self.graph).half_edge_data()[self.handle],
    {
        self.graph.half_edge_payload(self.handle)
    }

    /// The payload of the entity, for writing. The links of the graph stay
    /// as they are.
    pub fn data_mut(&mut self) -> (r: &mut D::HalfEdge)
        requires
            old(self).wf(),
        ensures
            final(self).graph@ =~= old(self).graph@ && final(self).wf(),
            final(self).handle == old(self).handle,
            *final(final(self).graph) == *final(old(self).graph),
            *r == old(self).graph.half_edge_data()[old(self).handle],
            final(self).graph.half_edge_data() =~= old(self).graph.half_edge_data().insert(
                old(self).handle,
                *final(r),
            ),
    {
        self.graph.get_half_edge_data_mut(self.handle).unwrap()
    }

    /// A read view of the same entity, for as long as this view is left
    /// alone.
    pub fn read(&self) -> (r: HalfEdgeFn<'_, D>)
        ensures
            r.graph() == *old(self.graph),
            r.id() == self.handle,
    {
        HalfEdgeFn::new(&*self.graph, self.handle)
    }

    /// The view turned into a read view.
    pub fn into_read(self) -> (r: HalfEdgeFn<'g, D>)
        ensures
            r.graph() == *old(self.graph),
            r.id() == self.handle,
            *final(self.graph) == *old(self.graph),
    {
        HalfEdgeFn::new(&*self.graph, self.handle)
    }

    /// The opposite half-edge of the same edge.
    pub fn pair(&mut self) -> (r: HalfEdgeFn<'_, D>)
        requires
            old(self).wf(),
        ensures
            r.wf(),
            r.graph() == *old(self).graph,
            r.id() == old(self).graph@.pair(old(self).handle),
            *final(self) == *old(self),
    {
        proof {
            self.graph@.lemma_half_edge(self.handle);
        }
        let handle = self.graph.pair_of(self.handle);
        HalfEdgeFn::new(&*self.graph, handle)
    }

    /// The opposite half-edge of the same edge, for writing. This view is not to be used
    /// until that one is given up.
    pub fn pair_mut(&mut self) -> (r: HalfEdgeFnMut<'_, D>)
        requires
            old(self).wf(),
        ensures
            r.wf(),
            *r.graph == *old(self).graph,
            r.handle == old(self).graph@.pair(old(self).handle),
            final(self).handle == old(self).handle,
            *final(self).graph == *final(r.graph),
            *final(final(self).graph) == *final(old(self).graph),
    {
        proof {
            self.graph@.lemma_half_edge(self.handle);
        }
        let handle = self.graph.pair_of(self.handle);
        HalfEdgeFnMut::new(&mut *self.graph, handle)
    }

    /// The opposite half-edge of the same edge, for writing, in place of this view.
    pub fn as_pair(self) -> (r: HalfEdgeFnMut<'g, D>)
        requires
            self.wf(),
        ensures
            r.wf(),
            *r.graph == *old(self.graph),
            r.handle == old(self.graph)@.pair(self.handle),
            *final(self.graph) == *final(r.graph),
    {
        proof {
            self.graph@.lemma_half_edge(self.handle);
        }
        let handle = self.graph.pair_of(self.handle);
        HalfEdgeFnMut::new(self.graph, handle)
    }

    /// The half-edge that follows in the loop.
    pub fn next(&mut self) -> (r: HalfEdgeFn<'_, D>)
        requires
            old(self).wf(),
        ensures
            r.wf(),
            r.graph() == *old(self).graph,
            r.id() == old(self).graph@.next(old(self).handle),
            *final(self) == *old(self),
    {
        proof {
            self.graph@.lemma_half_edge(self.handle);
        }
        let handle = self.graph.next_of(self.handle);
        HalfEdgeFn::new(&*self.graph, handle)
    }

    /// The half-edge that follows in the loop, for writing. This view is not to be used
    /// until that one is given up.
    pub fn next_mut(&mut self) -> (r: HalfEdgeFnMut<'_, D>)
        requires
            old(self).wf(),
        ensures
            r.wf(),
            *r.graph == *old(self).graph,
            r.handle == old(self).graph@.next(old(self).handle),
            final(self).handle == old(self).handle,
            *final(self).graph == *final(r.graph),
            *final(final(self).graph) == *final(old(self).graph),
    {
        proof {
            self.graph@.lemma_half_edge(self.handle);
        }
        let handle = self.graph.next_of(self.handle);
        HalfEdgeFnMut::new(&mut *self.graph, handle)
    }

    /// The half-edge that follows in the loop, for writing, in place of this view.
    pub fn as_next(self) -> (r: HalfEdgeFnMut<'g, D>)
        requires
            self.wf(),
        ensures
            r.wf(),
            *r.graph == *old(self.graph),
            r.handle == old(self.graph)@.next(self.handle),
            *final(self.graph) == *final(r.graph),
    {
        proof {
            self.graph@.lemma_half_edge(self.handle);
        }
        let handle = self.graph.next_of(self.handle);
        HalfEdgeFnMut::new(self.graph, handle)
    }

    /// The half-edge that precedes in the loop.
    pub fn prev(&mut self) -> (r: HalfEdgeFn<'_, D>)
        requires
            old(self).wf(),
        ensures
            r.wf(),
            r.graph() == *old(self).graph,
            r.id() == old(self).graph@.prev(old(self).handle),
            *final(self) == *old(self),
    {
        proof {
            self.graph@.lemma_half_edge(self.handle);
        }
        let handle = self.graph.prev_of(self.handle);
        HalfEdgeFn::new(&*self.graph, handle)
    }

    /// The half-edge that precedes in the loop, for writing. This view is not to be used
    /// until that one is given up.
    pub fn prev_mut(&mut self) -> (r: HalfEdgeFnMut<'_, D>)
        requires
            old(self).wf(),
        ensures
            r.wf(),
            *r.graph == *old(self).graph,
            r.handle == old(self).graph@.prev(old(self).handle),
            final(self).handle == old(self).handle,
            *final(self).graph == *final(r.graph),
            *final(final(self).graph) == *final(old(self).graph),
    {
        proof {
            self.graph@.lemma_half_edge(self.handle);
        }
        let handle = self.graph.prev_of(self.handle);
        HalfEdgeFnMut::new(&mut *self.graph, handle)
    }

    /// The half-edge that precedes in the loop, for writing, in place of this view.
    pub fn as_prev(self) -> (r: HalfEdgeFnMut<'g, D>)
        requires
            self.wf(),
        ensures
            r.wf(),
            *r.graph == *old(self.graph),
            r.handle == old(self.graph)@.prev(self.handle),
            *final(self.graph) == *final(r.graph),
    {
        proof {
            self.graph@.lemma_half_edge(self.handle);
        }
        let handle = self.graph.prev_of(self.handle);
        HalfEdgeFnMut::new(self.graph, handle)
    }

    /// The vertex that the half-edge points to.
    pub fn vertex(&mut self) -> (r: VertexFn<'_, D>)
        requires
            old(self).wf(),
        ensures
            r.wf(),
            r.graph() == *old(self).graph,
            r.id() == old(self).graph@.target(old(self).handle),
            *final(self) == *old(self),
    {
        proof {
            self.graph@.lemma_half_edge(self.handle);
        }
        let handle = self.graph.target_of(self.handle);
        VertexFn::new(&*self.graph, handle)
    }

    /// The vertex that the half-edge points to, for writing. This view is not to be used
    /// until that one is given up.
    pub fn vertex_mut(&mut self) -> (r: VertexFnMut<'_, D>)
        requires
            old(self).wf(),
        ensures
            r.wf(),
            *r.graph == *old(self).graph,
            r.handle == old(self).graph@.target(old(self).handle),
            final(self).handle == old(self).handle,
            *final(self).graph == *final(r.graph),
            *final(final(self).graph) == *final(old(self).graph),
    {
        proof {
            self.graph@.lemma_half_edge(self.handle);
        }
        let handle = self.graph.target_of(self.handle);
        VertexFnMut::new(&mut *self.graph, handle)
    }

    /// The vertex that the half-edge points to, for writing, in place of this view.
    pub fn as_vertex(self) -> (r: VertexFnMut<'g, D>)
        requires
            self.wf(),
        ensures
            r.wf(),
            *r.graph == *old(self.graph),
            r.handle == old(self.graph)@.target(self.handle),
            *final(self.graph) == *final(r.graph),
    {
        proof {
            self.graph@.lemma_half_edge(self.handle);
        }
        let handle = self.graph.target_of(self.handle);
        VertexFnMut::new(self.graph, handle)
    }

    /// The edge that owns the half-edge.
    pub fn edge(&mut self) -> (r: EdgeFn<'_, D>)
        requires
            old(self).wf(),
        ensures
            r.wf(),
            r.graph() == *old(self).graph,
            r.id() == old(self).graph@.edge(old(self).handle),
            *final(self) == *old(self),
    {
        proof {
            self.graph@.lemma_half_edge(self.handle);
        }
        let handle = self.graph.edge_of(self.handle);
        EdgeFn::new(&*self.graph, handle)
    }

    /// The edge that owns the half-edge, for writing. This view is not to be used
    /// until that one is given up.
    pub fn edge_mut(&mut self) -> (r: EdgeFnMut<'_, D>)
        requires
            old(self).wf(),
        ensures
            r.wf(),
            *r.graph == *old(self).graph,
            r.handle == old(self).graph@.edge(old(self).handle),
            final(self).handle == old(self).handle,
            *final(self).graph == *final(r.graph),
            *final(final(self).graph) == *final(old(self).graph),
    {
        proof {
            self.graph@.lemma_half_edge(self.handle);
        }
        let handle = self.graph.edge_of(self.handle);
        EdgeFnMut::new(&mut *self.graph, handle)
    }

    /// The edge that owns the half-edge, for writing, in place of this view.
    pub fn as_edge(self) -> (r: EdgeFnMut<'g, D>)
        requires
            self.wf(),
        ensures
            r.wf(),
            *r.graph == *old(self.graph),
            r.handle == old(self.graph)@.edge(self.handle),
            *final(self.graph) == *final(r.graph),
    {
        proof {
            self.graph@.lemma_half_edge(self.handle);
        }
        let handle = self.graph.edge_of(self.handle);
        EdgeFnMut::new(self.graph, handle)
    }

    /// The face on whose boundary the half-edge lies, if any.
    pub fn face(&self) -> (r: Option<FaceFn<'_, D>>)
        requires
            self.wf(),
        ensures
            match r {
                Some(view) => view.wf() && view.graph() == *old(self.graph) && old(
                    self.graph,
                )@.face(self.handle) == Some(view.id()),
                None => old(self.graph)@.face(self.handle) is None,
            },
    {
        proof {
            self.graph@.lemma_half_edge(self.handle);
        }
        match self.graph.face_of(self.handle) {
            Some(handle) => Some(FaceFn::new(&*self.graph, handle)),
            None => None,
        }
    }

    /// The face on whose boundary the half-edge lies, if any, for writing. This view is not to be used
    /// until that one is given up.
    pub fn face_mut(&mut self) -> (r: Option<FaceFnMut<'_, D>>)
        requires
            old(self).wf(),
        ensures
            final(self).handle == old(self).handle,
            *final(final(self).graph) == *final(old(self).graph),
            match r {
                Some(view) => view.wf() && *view.graph == *old(self).graph && old(
                    self,
                ).graph@.face(old(self).handle) == Some(view.handle) && *final(self).graph == *final(view.graph),
                None => old(self).graph@.face(old(self).handle) is None && *final(self).graph == *old(
                    self,
                ).graph,
            },
    {
        proof {
            self.graph@.lemma_half_edge(self.handle);
        }
        match self.graph.face_of(self.handle) {
            Some(handle) => Some(FaceFnMut::new(&mut *self.graph, handle)),
            None => None,
        }
    }

    /// The face on whose boundary the half-edge lies, if any, for writing, in place of this view.
    pub fn as_face(self) -> (r: Option<FaceFnMut<'g, D>>)
        requires
            self.wf(),
        ensures
            match r {
                Some(view) => view.wf() && *view.graph == *old(self.graph) && old(
                    self.graph,
                )@.face(self.handle) == Some(view.handle) && *final(self.graph) == *final(view.graph),
                None => old(self.graph)@.face(self.handle) is None && *final(self.graph) == *old(
                    self.graph,
                ),
            },
    {
        proof {
            self.graph@.lemma_half_edge(self.handle);
        }
        match self.graph.face_of(self.handle) {
            Some(handle) => Some(FaceFnMut::new(self.graph, handle)),
            None => None,
        }
    }
}

/// A view of a vertex of a graph, for writing.
pub struct VertexFnMut<'g, D: Data> {
    pub graph: &'g mut HalfEdgeGraph<D>,
    pub handle: VertexHandle,
}

impl<'g, D: Data> VertexFnMut<'g, D> {
    /// The view is valid: its graph is well formed and holds the entity.
    pub open spec fn wf(&self) -> bool {
        self.graph.wf() && self.graph@.has_vertex(self.handle)
    }

    pub(crate) fn new(graph: &'g mut HalfEdgeGraph<D>, handle: VertexHandle) -> (r: Self)
        ensures
            *r.graph == *old(graph),
            r.handle == handle,
            *final(graph) == *final(r.graph),
    {
        VertexFnMut { graph, handle }
    }

    /// The handle of the entity.
    pub fn handle(&self) -> (r: VertexHandle)
        ensures
            r == self.handle,
    {
        self.handle
    }

    /// The payload of the entity.
    pub fn data(&self) -> (r: &D::Vertex)
        requires
            self.wf(),
        ensures
            *r == old(self.graph).vertex_data()[self.handle],
    {
        self.graph.vertex_payload(self.handle)
    }

    /// The payload of the entity, for writing. The links of the graph stay
    /// as they are.
    pub fn data_mut(&mut self) -> (r: &mut D::Vertex)
        requires
            old(self).wf(),
        ensures
            final(self).graph@ =~= old(self).graph@ && final(self).wf(),
            final(self).handle == old(self).handle,
            *final(final(self).graph) == *final(old(self).graph),
            *r == old(self).graph.vertex_data()[old(self).handle],
            final(self).graph.vertex_data() =~= old(self).graph.vertex_data().insert(
                old(self).handle,
                *final(r),
            ),
    {
        self.graph.get_vertex_data_mut(self.handle).unwrap()
    }

    /// A read view of the same entity, for as long as this view is left
    /// alone.
    pub fn read(&self) -> (r: VertexFn<'_, D>)
        ensures
            r.graph() == *old(self.graph),
            r.id() == self.handle,
    {
        VertexFn::new(&*self.graph, self.handle)
    }

    /// The view turned into a read view.
    pub fn into_read(self) -> (r: VertexFn<'g, D>)
        ensures
            r.graph() == *old(self.graph),
            r.id() == self.handle,
            *final(self.graph) == *old(self.graph),
    {
        VertexFn::new(&*self.graph, self.handle)
    }

    /// The representative half-edge of the vertex, which leaves it; none if the vertex is isolated.
    pub fn hedge(&self) -> (r: Option<HalfEdgeFn<'_, D>>)
        requires
            self.wf(),
        ensures
            match r {
                Some(view) => view.wf() && view.graph() == *old(self.graph) && old(
                    self.graph,
                )@.vertices[self.handle] == Some(view.id()),
                None => old(self.graph)@.vertices[self.handle] is None,
            },
    {
        proof {
            self.graph@.lemma_ring_from_representative_opt(self.handle);
        }
        match self.graph.hedge_of_vertex(self.handle) {
            Some(handle) => Some(HalfEdgeFn::new(&*self.graph, handle)),
            None => None,
        }
    }

    /// The representative half-edge of the vertex, which leaves it; none if the vertex is isolated, for writing. This view is not to be used
    /// until that one is given up.
    pub fn hedge_mut(&mut self) -> (r: Option<HalfEdgeFnMut<'_, D>>)
        requires
            old(self).wf(),
        ensures
            final(self).handle == old(self).handle,
            *final(final(self).graph) == *final(old(self).graph),
            match r {
                Some(view) => view.wf() && *view.graph == *old(self).graph && old(
                    self,
                ).graph@.vertices[old(self).handle] == Some(view.handle) && *final(self).graph == *final(view.graph),
                None => old(self).graph@.vertices[old(self).handle] is None && *final(self).graph == *old(
                    self,
                ).graph,
            },
    {
        proof {
            self.graph@.lemma_ring_from_representative_opt(self.handle);
        }
        match self.graph.hedge_of_vertex(self.handle) {
            Some(handle) => Some(HalfEdgeFnMut::new(&mut *self.graph, handle)),
            None => None,
        }
    }

    /// The representative half-edge of the vertex, which leaves it; none if the vertex is isolated, for writing, in place of this view.
    pub fn as_hedge(self) -> (r: Option<HalfEdgeFnMut<'g, D>>)
        requires
            self.wf(),
        ensures
            match r {
                Some(view) => view.wf() && *view.graph == *old(self.graph) && old(
                    self.graph,
                )@.vertices[self.handle] == Some(view.handle) && *final(self.graph) == *final(view.graph),
                None => old(self.graph)@.vertices[self.handle] is None && *final(self.graph) == *old(
                    self.graph,
                ),
            },
    {
        proof {
            self.graph@.lemma_ring_from_representative_opt(self.handle);
        }
        match self.graph.hedge_of_vertex(self.handle) {
            Some(handle) => Some(HalfEdgeFnMut::new(self.graph, handle)),
            None => None,
        }
    }
}

/// A view of an edge of a graph, for writing.
pub struct EdgeFnMut<'g, D: Data> {
    pub graph: &'g mut HalfEdgeGraph<D>,
    pub handle: EdgeHandle,
}

impl<'g, D: Data> EdgeFnMut<'g, D> {
    /// The view is valid: its graph is well formed and holds the entity.
    pub open spec fn wf(&self) -> bool {
        self.graph.wf() && self.graph@.has_edge(self.handle)
    }

    pub(crate) fn new(graph: &'g mut HalfEdgeGraph<D>, handle: EdgeHandle) -> (r: Self)
        ensures
            *r.graph == *old(graph),
            r.handle == handle,
            *final(graph) == *final(r.graph),
    {
        EdgeFnMut { graph, handle }
    }

    /// The handle of the entity.
    pub fn handle(&self) -> (r: EdgeHandle)
        ensures
            r == self.handle,
    {
        self.handle
    }

    /// The payload of the entity.
    pub fn data(&self) -> (r: &D::Edge)
        requires
            self.wf(),
        ensures
            *r == old(self.graph).edge_data()[self.handle],
    {
        self.graph.edge_payload(self.handle)
    }

    /// The payload of the entity, for writing. The links of the graph stay
    /// as they are.
    pub fn data_mut(&mut self) -> (r: &mut D::Edge)
        requires
            old(self).wf(),
        ensures
            final(self).graph@ =~= old(self).graph@ && final(self).wf(),
            final(self).handle == old(self).handle,
            *final(final(self).graph) == *final(old(self).graph),
            *r == old(self).graph.edge_data()[old(self).handle],
            final(self).graph.edge_data() =~= old(self).graph.edge_data().insert(
                old(self).handle,
                *final(r),
            ),
    {
        self.graph.get_edge_data_mut(self.handle).unwrap()
    }

    /// A read view of the same entity, for as long as this view is left
    /// alone.
    pub fn read(&self) -> (r: EdgeFn<'_, D>)
        ensures
            r.graph() == *old(self.graph),
            r.id() == self.handle,
    {
        EdgeFn::new(&*self.graph, self.handle)
    }

    /// The view turned into a read view.
    pub fn into_read(self) -> (r: EdgeFn<'g, D>)
        ensures
            r.graph() == *old(self.graph),
            r.id() == self.handle,
            *final(self.graph) == *old(self.graph),
    {
        EdgeFn::new(&*self.graph, self.handle)
    }

    /// The representative half-edge of the edge.
    pub fn hedge(&mut self) -> (r: HalfEdgeFn<'_, D>)
        requires
            old(self).wf(),
        ensures
            r.wf(),
            r.graph() == *old(self).graph,
            r.id() == old(self).graph@.edges[old(self).handle],
            *final(self) == *old(self),
    {
        proof {
            self.graph@.lemma_edge(self.handle);
        }
        let handle = self.graph.hedge_of_edge(self.handle);
        HalfEdgeFn::new(&*self.graph, handle)
    }

    /// The representative half-edge of the edge, for writing. This view is not to be used
    /// until that one is given up.
    pub fn hedge_mut(&mut self) -> (r: HalfEdgeFnMut<'_, D>)
        requires
            old(self).wf(),
        ensures
            r.wf(),
            *r.graph == *old(self).graph,
            r.handle == old(self).graph@.edges[old(self).handle],
            final(self).handle == old(self).handle,
            *final(self).graph == *final(r.graph),
            *final(final(self).graph) == *final(old(self).graph),
    {
        proof {
            self.graph@.lemma_edge(self.handle);
        }
        let handle = self.graph.hedge_of_edge(self.handle);
        HalfEdgeFnMut::new(&mut *self.graph, handle)
    }

    /// The representative half-edge of the edge, for writing, in place of this view.
    pub fn as_hedge(self) -> (r: HalfEdgeFnMut<'g, D>)
        requires
            self.wf(),
        ensures
            r.wf(),
            *r.graph == *old(self.graph),
            r.handle == old(self.graph)@.edges[self.handle],
            *final(self.graph) == *final(r.graph),
    {
        proof {
            self.graph@.lemma_edge(self.handle);
        }
        let handle = self.graph.hedge_of_edge(self.handle);
        HalfEdgeFnMut::new(self.graph, handle)
    }
}

/// A view of a face of a graph, for writing.
pub struct FaceFnMut<'g, D: Data> {
    pub graph: &'g mut HalfEdgeGraph<D>,
    pub handle: FaceHandle,
}

impl<'g, D: Data> FaceFnMut<'g, D> {
    /// The view is valid: its graph is well formed and holds the entity.
    pub open spec fn wf(&self) -> bool {
        self.graph.wf() && self.graph@.has_face(self.handle)
    }

    pub(crate) fn new(graph: &'g mut HalfEdgeGraph<D>, handle: FaceHandle) -> (r: Self)
        ensures
            *r.graph == *old(graph),
            r.handle == handle,
            *final(graph) == *final(r.graph),
    {
        FaceFnMut { graph, handle }
    }

    /// The handle of the entity.
    pub fn handle(&self) -> (r: FaceHandle)
        ensures
            r == self.handle,
    {
        self.handle
    }

    /// The payload of the entity.
    pub fn data(&self) -> (r: &D::Face)
        requires
            self.wf(),
        ensures
            *r == old(self.graph).face_data()[self.handle],
    {
        self.graph.face_payload(self.handle)
    }

    /// The payload of the entity, for writing. The links of the graph stay
    /// as they are.
    pub fn data_mut(&mut self) -> (r: &mut D::Face)
        requires
            old(self).wf(),
        ensures
            final(self).graph@ =~= old(self).graph@ && final(self).wf(),
            final(self).handle == old(self).handle,
            *final(final(self).graph) == *final(old(self).graph),
            *r == old(self).graph.face_data()[old(self).handle],
            final(self).graph.face_data() =~= old(self).graph.face_data().insert(
                old(self).handle,
                *final(r),
            ),
    {
        self.graph.get_face_data_mut(self.handle).unwrap()
    }

    /// A read view of the same entity, for as long as this view is left
    /// alone.
    pub fn read(&self) -> (r: FaceFn<'_, D>)
        ensures
            r.graph() == *old(self.graph),
            r.id() == self.handle,
    {
        FaceFn::new(&*self.graph, self.handle)
    }

    /// The view turned into a read view.
    pub fn into_read(self) -> (r: FaceFn<'g, D>)
        ensures
            r.graph() == *old(self.graph),
            r.id() == self.handle,
            *final(self.graph) == *old(self.graph),
    {
        FaceFn::new(&*self.graph, self.handle)
    }

    /// The representative half-edge of the face.
    pub fn hedge(&mut self) -> (r: HalfEdgeFn<'_, D>)
        requires
            old(self).wf(),
        ensures
            r.wf(),
            r.graph() == *old(self).graph,
            r.id() == old(self).graph@.faces[old(self).handle],
            *final(self) == *old(self),
    {
        proof {
            self.graph@.lemma_face(self.handle);
        }
        let handle = self.graph.hedge_of_face(self.handle);
        HalfEdgeFn::new(&*self.graph, handle)
    }

    /// The representative half-edge of the face, for writing. This view is not to be used
    /// until that one is given up.
    pub fn hedge_mut(&mut self) -> (r: HalfEdgeFnMut<'_, D>)
        requires
            old(self).wf(),
        ensures
            r.wf(),
            *r.graph == *old(self).graph,
            r.handle == old(self).graph@.faces[old(self).handle],
            final(self).handle == old(self).handle,
            *final(self).graph == *final(r.graph),
            *final(final(self).graph) == *final(old(self).graph),
    {
        proof {
            self.graph@.lemma_face(self.handle);
        }
        let handle = self.graph.hedge_of_face(self.handle);
        HalfEdgeFnMut::new(&mut *self.graph, handle)
    }

    /// The representative half-edge of the face, for writing, in place of this view.
    pub fn as_hedge(self) -> (r: HalfEdgeFnMut<'g, D>)
        requires
            self.wf(),
        ensures
            r.wf(),
            *r.graph == *old(self.graph),
            r.handle == old(self.graph)@.faces[self.handle],
            *final(self.graph) == *final(r.graph),
    {
        proof {
            self.graph@.lemma_face(self.handle);
        }
        let handle = self.graph.hedge_of_face(self.handle);
        HalfEdgeFnMut::new(self.graph, handle)
    }
}

impl<'g, D: Data> From<HalfEdgeFnMut<'g, D>> for HalfEdgeFn<'g, D> {
    /// The mutable view turned into a read view.
    fn from(item: HalfEdgeFnMut<'g, D>) -> (r: Self) {
        HalfEdgeFn::new(&*item.graph, item.handle)
    }
}

impl<'g, D: Data> vstd::std_specs::convert::FromSpecImpl<HalfEdgeFnMut<'g, D>> for HalfEdgeFn<'g, D> {
    open spec fn obeys_from_spec() -> bool {
        true
    }

    open spec fn from_spec(item: HalfEdgeFnMut<'g, D>) -> Self {
        HalfEdgeFn::made_of(&*item.graph, item.handle)
    }
}

impl<'g, D: Data> From<VertexFnMut<'g, D>> for VertexFn<'g, D> {
    /// The mutable view turned into a read view.
    fn from(item: VertexFnMut<'g, D>) -> (r: Self) {
        VertexFn::new(&*item.graph, item.handle)
    }
}

impl<'g, D: Data> vstd::std_specs::convert::FromSpecImpl<VertexFnMut<'g, D>> for VertexFn<'g, D> {
    open spec fn obeys_from_spec() -> bool {
        true
    }

    open spec fn from_spec(item: VertexFnMut<'g, D>) -> Self {
        VertexFn::made_of(&*item.graph, item.handle)
    }
}

impl<'g, D: Data> From<EdgeFnMut<'g, D>> for EdgeFn<'g, D> {
    /// The mutable view turned into a read view.
    fn from(item: EdgeFnMut<'g, D>) -> (r: Self) {
        EdgeFn::new(&*item.graph, item.handle)
    }
}

impl<'g, D: Data> vstd::std_specs::convert::FromSpecImpl<EdgeFnMut<'g, D>> for EdgeFn<'g, D> {
    open spec fn obeys_from_spec() -> bool {
        true
    }

    open spec fn from_spec(item: EdgeFnMut<'g, D>) -> Self {
        EdgeFn::made_of(&*item.graph, item.handle)
    }
}

impl<'g, D: Data> From<FaceFnMut<'g, D>> for FaceFn<'g, D> {
    /// The mutable view turned into a read view.
    fn from(item: FaceFnMut<'g, D>) -> (r: Self) {
        FaceFn::new(&*item.graph, item.handle)
    }
}

impl<'g, D: Data> vstd::std_specs::convert::FromSpecImpl<FaceFnMut<'g, D>> for FaceFn<'g, D> {
    open spec fn obeys_from_spec() -> bool {
        true
    }

    open spec fn from_spec(item: FaceFnMut<'g, D>) -> Self {
        FaceFn::made_of(&*item.graph, item.handle)
    }
}

impl<D: Data> HalfEdgeGraph<D> {
    /// A view of a half-edge for writing, or nothing if the handle names
    /// none.
    pub fn half_edge_mut(&mut self, handle: HalfEdgeHandle) -> (r: Option<HalfEdgeFnMut<'_, D>>)
        ensures
            r is Some <==> old(self)@.has(handle),
            r matches Some(view) ==> *view.graph == *old(self) && view.handle == handle
                && *final(self) == *final(view.graph),
            r is None ==> *final(self) == *old(self),
    {
        if self.contains_half_edge(handle) {
            Some(HalfEdgeFnMut::new(self, handle))
        } else {
            None
        }
    }

    /// A view of a vertex for writing, or nothing if the handle names
    /// none.
    pub fn vertex_mut(&mut self, handle: VertexHandle) -> (r: Option<VertexFnMut<'_, D>>)
        ensures
            r is Some <==> old(self)@.has_vertex(handle),
            r matches Some(view) ==> *view.graph == *old(self) && view.handle == handle
                && *final(self) == *final(view.graph),
            r is None ==> *final(self) == *old(self),
    {
        if self.contains_vertex(handle) {
            Some(VertexFnMut::new(self, handle))
        } else {
            None
        }
    }

    /// A view of an edge for writing, or nothing if the handle names
    /// none.
    pub fn edge_mut(&mut self, handle: EdgeHandle) -> (r: Option<EdgeFnMut<'_, D>>)
        ensures
            r is Some <==> old(self)@.has_edge(handle),
            r matches Some(view) ==> *view.graph == *old(self) && view.handle == handle
                && *final(self) == *final(view.graph),
            r is None ==> *final(self) == *old(self),
    {
        if self.contains_edge(handle) {
            Some(EdgeFnMut::new(self, handle))
        } else {
            None
        }
    }

    /// A view of a face for writing, or nothing if the handle names
    /// none.
    pub fn face_mut(&mut self, handle: FaceHandle) -> (r: Option<FaceFnMut<'_, D>>)
        ensures
            r is Some <==> old(self)@.has_face(handle),
            r matches Some(view) ==> *view.graph == *old(self) && view.handle == handle
                && *final(self) == *final(view.graph),
            r is None ==> *final(self) == *old(self),
    {
        if self.contains_face(handle) {
            Some(FaceFnMut::new(self, handle))
        } else {
            None
        }
    }
}

} // verus!
