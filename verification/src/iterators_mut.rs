//! Mutable traversals: the entities of a graph, or those that lie round
//! a vertex, an edge or a face, handed out one at a time as mutable views.
//!
//! A mutable traversal borrows the graph for writing for as long as it
//! lives. It lists the handles of what it will hand out when it is made;
//! the views it hands out can change payloads but no links, so the list
//! stays right. Each view is to be given up before the next one is asked
//! for.

use crate::data::Data;
use crate::graph::HalfEdgeGraph;
use crate::handle::{EdgeHandle, FaceHandle, HalfEdgeHandle, VertexHandle};
use crate::iterators::{
    EdgeFaces, FaceEdges, FaceFaces, FaceVertices, VertexEdges, VertexFaces, VertexInHalfEdges,
    VertexOutHalfEdges, VertexVertex,
};
use crate::views::{EdgeFn, FaceFn, VertexFn};
use crate::views_mut::{EdgeFnMut, FaceFnMut, HalfEdgeFnMut, VertexFnMut};
use vstd::prelude::*;

verus! {

/// The vertices of a graph, in the order in which they were made.
pub struct VerticesMut<'g, D: Data> {
    pub graph: &'g mut HalfEdgeGraph<D>,
    pub handles: Vec<VertexHandle>,
    pub current: usize,
}

impl<'g, D: Data> VerticesMut<'g, D> {
    /// The traversal is valid: its graph is well formed and holds every
    /// entity that is listed.
    pub open spec fn wf(&self) -> bool {
        &&& self.graph.wf()
        &&& self.current <= self.handles@.len()
        &&& forall|i: int|
            0 <= i < self.handles@.len() ==> self.graph@.has_vertex(#[trigger] self.handles@[i])
    }

    /// What the traversal has yet to hand out, in its order.
    pub open spec fn remaining(&self) -> Seq<VertexHandle> {
        self.handles@.skip(self.current as int)
    }

    /// Hands out the next entity of the traversal as a mutable view, or
    /// nothing when the traversal has come to its end.
    pub fn next(&mut self) -> (r: Option<VertexFnMut<'_, D>>)
        requires
            old(self).wf(),
        ensures
            final(self).handles == old(self).handles,
            *final(final(self).graph) == *final(old(self).graph),
            match r {
                Some(view) => {
                    &&& old(self).current < old(self).handles@.len()
                    &&& view.handle == old(self).handles@[old(self).current as int]
                    &&& *view.graph == *old(self).graph
                    &&& view.wf()
                    &&& final(self).current == old(self).current + 1
                    &&& *final(self).graph == *final(view.graph)
                },
                None => {
                    &&& old(self).current == old(self).handles@.len()
                    &&& final(self).current == old(self).current
                    &&& *final(self).graph == *old(self).graph
                },
            },
    {
        if self.current < self.handles.len() {
            let handle = self.handles[self.current];
            self.current = self.current + 1;
            Some(VertexFnMut::new(&mut *self.graph, handle))
        } else {
            None
        }
    }

    /// The traversal of the whole graph.
    pub fn new(graph: &'g mut HalfEdgeGraph<D>) -> (r: Self)
        requires
            old(graph).wf(),
        ensures
            r.wf(),
            *r.graph == *old(graph),
            r.current == 0,
            r.handles@ == old(graph).vertex_order(),
            *final(graph) == *final(r.graph),
    {
        let handles = graph.vertex_handles();
        proof {
            graph.lemma_vertex_order();
            assert forall|i: int| 0 <= i < handles@.len() implies graph@.has_vertex(
                #[trigger] handles@[i],
            ) by {
                assert(graph.vertex_order().contains(handles@[i]));
            }
        }
        VerticesMut { graph, handles, current: 0 }
    }
}

/// The half-edges of a graph, in the order in which they were made.
pub struct HalfEdgesMut<'g, D: Data> {
    pub graph: &'g mut HalfEdgeGraph<D>,
    pub handles: Vec<HalfEdgeHandle>,
    pub current: usize,
}

impl<'g, D: Data> HalfEdgesMut<'g, D> {
    /// The traversal is valid: its graph is well formed and holds every
    /// entity that is listed.
    pub open spec fn wf(&self) -> bool {
        &&& self.graph.wf()
        &&& self.current <= self.handles@.len()
        &&& forall|i: int|
            0 <= i < self.handles@.len() ==> self.graph@.has(#[trigger] self.handles@[i])
    }

    /// What the traversal has yet to hand out, in its order.
    pub open spec fn remaining(&self) -> Seq<HalfEdgeHandle> {
        self.handles@.skip(self.current as int)
    }

    /// Hands out the next entity of the traversal as a mutable view, or
    /// nothing when the traversal has come to its end.
    pub fn next(&mut self) -> (r: Option<HalfEdgeFnMut<'_, D>>)
        requires
            old(self).wf(),
        ensures
            final(self).handles == old(self).handles,
            *final(final(self).graph) == *final(old(self).graph),
            match r {
                Some(view) => {
                    &&& old(self).current < old(self).handles@.len()
                    &&& view.handle == old(self).handles@[old(self).current as int]
                    &&& *view.graph == *old(self).graph
                    &&& view.wf()
                    &&& final(self).current == old(self).current + 1
                    &&& *final(self).graph == *final(view.graph)
                },
                None => {
                    &&& old(self).current == old(self).handles@.len()
                    &&& final(self).current == old(self).current
                    &&& *final(self).graph == *old(self).graph
                },
            },
    {
        if self.current < self.handles.len() {
            let handle = self.handles[self.current];
            self.current = self.current + 1;
            Some(HalfEdgeFnMut::new(&mut *self.graph, handle))
        } else {
            None
        }
    }

    /// The traversal of the whole graph.
    pub fn new(graph: &'g mut HalfEdgeGraph<D>) -> (r: Self)
        requires
            old(graph).wf(),
        ensures
            r.wf(),
            *r.graph == *old(graph),
            r.current == 0,
            r.handles@ == old(graph).half_edge_order(),
            *final(graph) == *final(r.graph),
    {
        let handles = graph.half_edge_handles();
        proof {
            graph.lemma_half_edge_order();
            assert forall|i: int| 0 <= i < handles@.len() implies graph@.has(
                #[trigger] handles@[i],
            ) by {
                assert(graph.half_edge_order().contains(handles@[i]));
            }
        }
        HalfEdgesMut { graph, handles, current: 0 }
    }
}

/// The edges of a graph, in the order in which they were made.
pub struct EdgesMut<'g, D: Data> {
    pub graph: &'g mut HalfEdgeGraph<D>,
    pub handles: Vec<EdgeHandle>,
    pub current: usize,
}

impl<'g, D: Data> EdgesMut<'g, D> {
    /// The traversal is valid: its graph is well formed and holds every
    /// entity that is listed.
    pub open spec fn wf(&self) -> bool {
        &&& self.graph.wf()
        &&& self.current <= self.handles@.len()
        &&& forall|i: int|
            0 <= i < self.handles@.len() ==> self.graph@.has_edge(#[trigger] self.handles@[i])
    }

    /// What the traversal has yet to hand out, in its order.
    pub open spec fn remaining(&self) -> Seq<EdgeHandle> {
        self.handles@.skip(self.current as int)
    }

    /// Hands out the next entity of the traversal as a mutable view, or
    /// nothing when the traversal has come to its end.
    pub fn next(&mut self) -> (r: Option<EdgeFnMut<'_, D>>)
        requires
            old(self).wf(),
        ensures
            final(self).handles == old(self).handles,
            *final(final(self).graph) == *final(old(self).graph),
            match r {
                Some(view) => {
                    &&& old(self).current < old(self).handles@.len()
                    &&& view.handle == old(self).handles@[old(self).current as int]
                    &&& *view.graph == *old(self).graph
                    &&& view.wf()
                    &&& final(self).current == old(self).current + 1
                    &&& *final(self).graph == *final(view.graph)
                },
                None => {
                    &&& old(self).current == old(self).handles@.len()
                    &&& final(self).current == old(self).current
                    &&& *final(self).graph == *old(self).graph
                },
            },
    {
        if self.current < self.handles.len() {
            let handle = self.handles[self.current];
            self.current = self.current + 1;
            Some(EdgeFnMut::new(&mut *self.graph, handle))
        } else {
            None
        }
    }

    /// The traversal of the whole graph.
    pub fn new(graph: &'g mut HalfEdgeGraph<D>) -> (r: Self)
        requires
            old(graph).wf(),
        ensures
            r.wf(),
            *r.graph == *old(graph),
            r.current == 0,
            r.handles@ == old(graph).edge_order(),
            *final(graph) == *final(r.graph),
    {
        let handles = graph.edge_handles();
        proof {
            graph.lemma_edge_order();
            assert forall|i: int| 0 <= i < handles@.len() implies graph@.has_edge(
                #[trigger] handles@[i],
            ) by {
                assert(graph.edge_order().contains(handles@[i]));
            }
        }
        EdgesMut { graph, handles, current: 0 }
    }
}

/// The faces of a graph, in the order in which they were made.
pub struct FacesMut<'g, D: Data> {
    pub graph: &'g mut HalfEdgeGraph<D>,
    pub handles: Vec<FaceHandle>,
    pub current: usize,
}

impl<'g, D: Data> FacesMut<'g, D> {
    /// The traversal is valid: its graph is well formed and holds every
    /// entity that is listed.
    pub open spec fn wf(&self) -> bool {
        &&& self.graph.wf()
        &&& self.current <= self.handles@.len()
        &&& forall|i: int|
            0 <= i < self.handles@.len() ==> self.graph@.has_face(#[trigger] self.handles@[i])
    }

    /// What the traversal has yet to hand out, in its order.
    pub open spec fn remaining(&self) -> Seq<FaceHandle> {
        self.handles@.skip(self.current as int)
    }

    /// Hands out the next entity of the traversal as a mutable view, or
    /// nothing when the traversal has come to its end.
    pub fn next(&mut self) -> (r: Option<FaceFnMut<'_, D>>)
        requires
            old(self).wf(),
        ensures
            final(self).handles == old(self).handles,
            *final(final(self).graph) == *final(old(self).graph),
            match r {
                Some(view) => {
                    &&& old(self).current < old(self).handles@.len()
                    &&& view.handle == old(self).handles@[old(self).current as int]
                    &&& *view.graph == *old(self).graph
                    &&& view.wf()
                    &&& final(self).current == old(self).current + 1
                    &&& *final(self).graph == *final(view.graph)
                },
                None => {
                    &&& old(self).current == old(self).handles@.len()
                    &&& final(self).current == old(self).current
                    &&& *final(self).graph == *old(self).graph
                },
            },
    {
        if self.current < self.handles.len() {
            let handle = self.handles[self.current];
            self.current = self.current + 1;
            Some(FaceFnMut::new(&mut *self.graph, handle))
        } else {
            None
        }
    }

    /// The traversal of the whole graph.
    pub fn new(graph: &'g mut HalfEdgeGraph<D>) -> (r: Self)
        requires
            old(graph).wf(),
        ensures
            r.wf(),
            *r.graph == *old(graph),
            r.current == 0,
            r.handles@ == old(graph).face_order(),
            *final(graph) == *final(r.graph),
    {
        let handles = graph.face_handles();
        proof {
            graph.lemma_face_order();
            assert forall|i: int| 0 <= i < handles@.len() implies graph@.has_face(
                #[trigger] handles@[i],
            ) by {
                assert(graph.face_order().contains(handles@[i]));
            }
        }
        FacesMut { graph, handles, current: 0 }
    }
}

/// The half-edges that leave a vertex.
pub struct VertexOutHalfEdgesMut<'g, D: Data> {
    pub graph: &'g mut HalfEdgeGraph<D>,
    pub handles: Vec<HalfEdgeHandle>,
    pub current: usize,
}

impl<'g, D: Data> VertexOutHalfEdgesMut<'g, D> {
    /// The traversal is valid: its graph is well formed and holds every
    /// entity that is listed.
    pub open spec fn wf(&self) -> bool {
        &&& self.graph.wf()
        &&& self.current <= self.handles@.len()
        &&& forall|i: int|
            0 <= i < self.handles@.len() ==> self.graph@.has(#[trigger] self.handles@[i])
    }

    /// What the traversal has yet to hand out, in its order.
    pub open spec fn remaining(&self) -> Seq<HalfEdgeHandle> {
        self.handles@.skip(self.current as int)
    }

    /// Hands out the next entity of the traversal as a mutable view, or
    /// nothing when the traversal has come to its end.
    pub fn next(&mut self) -> (r: Option<HalfEdgeFnMut<'_, D>>)
        requires
            old(self).wf(),
        ensures
            final(self).handles == old(self).handles,
            *final(final(self).graph) == *final(old(self).graph),
            match r {
                Some(view) => {
                    &&& old(self).current < old(self).handles@.len()
                    &&& view.handle == old(self).handles@[old(self).current as int]
                    &&& *view.graph == *old(self).graph
                    &&& view.wf()
                    &&& final(self).current == old(self).current + 1
                    &&& *final(self).graph == *final(view.graph)
                },
                None => {
                    &&& old(self).current == old(self).handles@.len()
                    &&& final(self).current == old(self).current
                    &&& *final(self).graph == *old(self).graph
                },
            },
    {
        if self.current < self.handles.len() {
            let handle = self.handles[self.current];
            self.current = self.current + 1;
            Some(HalfEdgeFnMut::new(&mut *self.graph, handle))
        } else {
            None
        }
    }

    /// The traversal from the entity that `view` shows.
    pub fn new(view: VertexFnMut<'g, D>) -> (r: Self)
        requires
            view.wf(),
        ensures
            r.wf(),
            *r.graph == *old(view.graph),
            r.current == 0,
            r.handles@ == old(view.graph)@.out_half_edges(view.handle),
            *final(view.graph) == *final(r.graph),
    {
        let read = VertexFn::new(&*view.graph, view.handle);
        let traversal = VertexOutHalfEdges::new(read);
        let handles = traversal.to_handles();
        proof {
            view.graph@.lemma_out_half_edges(view.handle);
        }
        VertexOutHalfEdgesMut { graph: view.graph, handles, current: 0 }
    }
}

/// The half-edges that point to a vertex.
pub struct VertexInHalfEdgesMut<'g, D: Data> {
    pub graph: &'g mut HalfEdgeGraph<D>,
    pub handles: Vec<HalfEdgeHandle>,
    pub current: usize,
}

impl<'g, D: Data> VertexInHalfEdgesMut<'g, D> {
    /// The traversal is valid: its graph is well formed and holds every
    /// entity that is listed.
    pub open spec fn wf(&self) -> bool {
        &&& self.graph.wf()
        &&& self.current <= self.handles@.len()
        &&& forall|i: int|
            0 <= i < self.handles@.len() ==> self.graph@.has(#[trigger] self.handles@[i])
    }

    /// What the traversal has yet to hand out, in its order.
    pub open spec fn remaining(&self) -> Seq<HalfEdgeHandle> {
        self.handles@.skip(self.current as int)
    }

    /// Hands out the next entity of the traversal as a mutable view, or
    /// nothing when the traversal has come to its end.
    pub fn next(&mut self) -> (r: Option<HalfEdgeFnMut<'_, D>>)
        requires
            old(self).wf(),
        ensures
            final(self).handles == old(self).handles,
            *final(final(self).graph) == *final(old(self).graph),
            match r {
                Some(view) => {
                    &&& old(self).current < old(self).handles@.len()
                    &&& view.handle == old(self).handles@[old(self).current as int]
                    &&& *view.graph == *old(self).graph
                    &&& view.wf()
                    &&& final(self).current == old(self).current + 1
                    &&& *final(self).graph == *final(view.graph)
                },
                None => {
                    &&& old(self).current == old(self).handles@.len()
                    &&& final(self).current == old(self).current
                    &&& *final(self).graph == *old(self).graph
                },
            },
    {
        if self.current < self.handles.len() {
            let handle = self.handles[self.current];
            self.current = self.current + 1;
            Some(HalfEdgeFnMut::new(&mut *self.graph, handle))
        } else {
            None
        }
    }

    /// The traversal from the entity that `view` shows.
    pub fn new(view: VertexFnMut<'g, D>) -> (r: Self)
        requires
            view.wf(),
        ensures
            r.wf(),
            *r.graph == *old(view.graph),
            r.current == 0,
            r.handles@ == old(view.graph)@.in_half_edges(view.handle),
            *final(view.graph) == *final(r.graph),
    {
        let read = VertexFn::new(&*view.graph, view.handle);
        let traversal = VertexInHalfEdges::new(read);
        let handles = traversal.to_handles();
        proof {
            view.graph@.lemma_in_half_edges(view.handle);
        }
        VertexInHalfEdgesMut { graph: view.graph, handles, current: 0 }
    }
}

/// The vertices that an edge joins to a vertex.
pub struct VertexVertexMut<'g, D: Data> {
    pub graph: &'g mut HalfEdgeGraph<D>,
    pub handles: Vec<VertexHandle>,
    pub current: usize,
}

impl<'g, D: Data> VertexVertexMut<'g, D> {
    /// The traversal is valid: its graph is well formed and holds every
    /// entity that is listed.
    pub open spec fn wf(&self) -> bool {
        &&& self.graph.wf()
        &&& self.current <= self.handles@.len()
        &&& forall|i: int|
            0 <= i < self.handles@.len() ==> self.graph@.has_vertex(#[trigger] self.handles@[i])
    }

    /// What the traversal has yet to hand out, in its order.
    pub open spec fn remaining(&self) -> Seq<VertexHandle> {
        self.handles@.skip(self.current as int)
    }

    /// Hands out the next entity of the traversal as a mutable view, or
    /// nothing when the traversal has come to its end.
    pub fn next(&mut self) -> (r: Option<VertexFnMut<'_, D>>)
        requires
            old(self).wf(),
        ensures
            final(self).handles == old(self).handles,
            *final(final(self).graph) == *final(old(self).graph),
            match r {
                Some(view) => {
                    &&& old(self).current < old(self).handles@.len()
                    &&& view.handle == old(self).handles@[old(self).current as int]
                    &&& *view.graph == *old(self).graph
                    &&& view.wf()
                    &&& final(self).current == old(self).current + 1
                    &&& *final(self).graph == *final(view.graph)
                },
                None => {
                    &&& old(self).current == old(self).handles@.len()
                    &&& final(self).current == old(self).current
                    &&& *final(self).graph == *old(self).graph
                },
            },
    {
        if self.current < self.handles.len() {
            let handle = self.handles[self.current];
            self.current = self.current + 1;
            Some(VertexFnMut::new(&mut *self.graph, handle))
        } else {
            None
        }
    }

    /// The traversal from the entity that `view` shows.
    pub fn new(view: VertexFnMut<'g, D>) -> (r: Self)
        requires
            view.wf(),
        ensures
            r.wf(),
            *r.graph == *old(view.graph),
            r.current == 0,
            r.handles@ == old(view.graph)@.vertex_vertices(view.handle),
            *final(view.graph) == *final(r.graph),
    {
        let read = VertexFn::new(&*view.graph, view.handle);
        let traversal = VertexVertex::new(read);
        let handles = traversal.to_handles();
        proof {
            view.graph@.lemma_vertex_vertices(view.handle);
        }
        VertexVertexMut { graph: view.graph, handles, current: 0 }
    }
}

/// The edges at a vertex.
pub struct VertexEdgesMut<'g, D: Data> {
    pub graph: &'g mut HalfEdgeGraph<D>,
    pub handles: Vec<EdgeHandle>,
    pub current: usize,
}

impl<'g, D: Data> VertexEdgesMut<'g, D> {
    /// The traversal is valid: its graph is well formed and holds every
    /// entity that is listed.
    pub open spec fn wf(&self) -> bool {
        &&& self.graph.wf()
        &&& self.current <= self.handles@.len()
        &&& forall|i: int|
            0 <= i < self.handles@.len() ==> self.graph@.has_edge(#[trigger] self.handles@[i])
    }

    /// What the traversal has yet to hand out, in its order.
    pub open spec fn remaining(&self) -> Seq<EdgeHandle> {
        self.handles@.skip(self.current as int)
    }

    /// Hands out the next entity of the traversal as a mutable view, or
    /// nothing when the traversal has come to its end.
    pub fn next(&mut self) -> (r: Option<EdgeFnMut<'_, D>>)
        requires
            old(self).wf(),
        ensures
            final(self).handles == old(self).handles,
            *final(final(self).graph) == *final(old(self).graph),
            match r {
                Some(view) => {
                    &&& old(self).current < old(self).handles@.len()
                    &&& view.handle == old(self).handles@[old(self).current as int]
                    &&& *view.graph == *old(self).graph
                    &&& view.wf()
                    &&& final(self).current == old(self).current + 1
                    &&& *final(self).graph == *final(view.graph)
                },
                None => {
                    &&& old(self).current == old(self).handles@.len()
                    &&& final(self).current == old(self).current
                    &&& *final(self).graph == *old(self).graph
                },
            },
    {
        if self.current < self.handles.len() {
            let handle = self.handles[self.current];
            self.current = self.current + 1;
            Some(EdgeFnMut::new(&mut *self.graph, handle))
        } else {
            None
        }
    }

    /// The traversal from the entity that `view` shows.
    pub fn new(view: VertexFnMut<'g, D>) -> (r: Self)
        requires
            view.wf(),
        ensures
            r.wf(),
            *r.graph == *old(view.graph),
            r.current == 0,
            r.handles@ == old(view.graph)@.vertex_edges(view.handle),
            *final(view.graph) == *final(r.graph),
    {
        let read = VertexFn::new(&*view.graph, view.handle);
        let traversal = VertexEdges::new(read);
        let handles = traversal.to_handles();
        proof {
            view.graph@.lemma_vertex_edges(view.handle);
        }
        VertexEdgesMut { graph: view.graph, handles, current: 0 }
    }
}

/// The faces round a vertex.
pub struct VertexFacesMut<'g, D: Data> {
    pub graph: &'g mut HalfEdgeGraph<D>,
    pub handles: Vec<FaceHandle>,
    pub current: usize,
}

impl<'g, D: Data> VertexFacesMut<'g, D> {
    /// The traversal is valid: its graph is well formed and holds every
    /// entity that is listed.
    pub open spec fn wf(&self) -> bool {
        &&& self.graph.wf()
        &&& self.current <= self.handles@.len()
        &&& forall|i: int|
            0 <= i < self.handles@.len() ==> self.graph@.has_face(#[trigger] self.handles@[i])
    }

    /// What the traversal has yet to hand out, in its order.
    pub open spec fn remaining(&self) -> Seq<FaceHandle> {
        self.handles@.skip(self.current as int)
    }

    /// Hands out the next entity of the traversal as a mutable view, or
    /// nothing when the traversal has come to its end.
    pub fn next(&mut self) -> (r: Option<FaceFnMut<'_, D>>)
        requires
            old(self).wf(),
        ensures
            final(self).handles == old(self).handles,
            *final(final(self).graph) == *final(old(self).graph),
            match r {
                Some(view) => {
                    &&& old(self).current < old(self).handles@.len()
                    &&& view.handle == old(self).handles@[old(self).current as int]
                    &&& *view.graph == *old(self).graph
                    &&& view.wf()
                    &&& final(self).current == old(self).current + 1
                    &&& *final(self).graph == *final(view.graph)
                },
                None => {
                    &&& old(self).current == old(self).handles@.len()
                    &&& final(self).current == old(self).current
                    &&& *final(self).graph == *old(self).graph
                },
            },
    {
        if self.current < self.handles.len() {
            let handle = self.handles[self.current];
            self.current = self.current + 1;
            Some(FaceFnMut::new(&mut *self.graph, handle))
        } else {
            None
        }
    }

    /// The traversal from the entity that `view` shows.
    pub fn new(view: VertexFnMut<'g, D>) -> (r: Self)
        requires
            view.wf(),
        ensures
            r.wf(),
            *r.graph == *old(view.graph),
            r.current == 0,
            r.handles@ == old(view.graph)@.vertex_faces(view.handle),
            *final(view.graph) == *final(r.graph),
    {
        let read = VertexFn::new(&*view.graph, view.handle);
        let traversal = VertexFaces::new(read);
        let handles = traversal.to_handles();
        proof {
            view.graph@.lemma_vertex_faces(view.handle);
        }
        VertexFacesMut { graph: view.graph, handles, current: 0 }
    }
}

/// The faces on the two sides of an edge.
pub struct EdgeFacesMut<'g, D: Data> {
    pub graph: &'g mut HalfEdgeGraph<D>,
    pub handles: Vec<FaceHandle>,
    pub current: usize,
}

impl<'g, D: Data> EdgeFacesMut<'g, D> {
    /// The traversal is valid: its graph is well formed and holds every
    /// entity that is listed.
    pub open spec fn wf(&self) -> bool {
        &&& self.graph.wf()
        &&& self.current <= self.handles@.len()
        &&& forall|i: int|
            0 <= i < self.handles@.len() ==> self.graph@.has_face(#[trigger] self.handles@[i])
    }

    /// What the traversal has yet to hand out, in its order.
    pub open spec fn remaining(&self) -> Seq<FaceHandle> {
        self.handles@.skip(self.current as int)
    }

    /// Hands out the next entity of the traversal as a mutable view, or
    /// nothing when the traversal has come to its end.
    pub fn next(&mut self) -> (r: Option<FaceFnMut<'_, D>>)
        requires
            old(self).wf(),
        ensures
            final(self).handles == old(self).handles,
            *final(final(self).graph) == *final(old(self).graph),
            match r {
                Some(view) => {
                    &&& old(self).current < old(self).handles@.len()
                    &&& view.handle == old(self).handles@[old(self).current as int]
                    &&& *view.graph == *old(self).graph
                    &&& view.wf()
                    &&& final(self).current == old(self).current + 1
                    &&& *final(self).graph == *final(view.graph)
                },
                None => {
                    &&& old(self).current == old(self).handles@.len()
                    &&& final(self).current == old(self).current
                    &&& *final(self).graph == *old(self).graph
                },
            },
    {
        if self.current < self.handles.len() {
            let handle = self.handles[self.current];
            self.current = self.current + 1;
            Some(FaceFnMut::new(&mut *self.graph, handle))
        } else {
            None
        }
    }

    /// The traversal from the entity that `view` shows.
    pub fn new(view: EdgeFnMut<'g, D>) -> (r: Self)
        requires
            view.wf(),
        ensures
            r.wf(),
            *r.graph == *old(view.graph),
            r.current == 0,
            r.handles@ == old(view.graph)@.edge_faces(view.handle),
            *final(view.graph) == *final(r.graph),
    {
        let read = EdgeFn::new(&*view.graph, view.handle);
        let traversal = EdgeFaces::new(read);
        let handles = traversal.to_handles();
        proof {
            view.graph@.lemma_edge_faces(view.handle);
        }
        EdgeFacesMut { graph: view.graph, handles, current: 0 }
    }
}

/// The vertices along the boundary of a face.
pub struct FaceVerticesMut<'g, D: Data> {
    pub graph: &'g mut HalfEdgeGraph<D>,
    pub handles: Vec<VertexHandle>,
    pub current: usize,
}

impl<'g, D: Data> FaceVerticesMut<'g, D> {
    /// The traversal is valid: its graph is well formed and holds every
    /// entity that is listed.
    pub open spec fn wf(&self) -> bool {
        &&& self.graph.wf()
        &&& self.current <= self.handles@.len()
        &&& forall|i: int|
            0 <= i < self.handles@.len() ==> self.graph@.has_vertex(#[trigger] self.handles@[i])
    }

    /// What the traversal has yet to hand out, in its order.
    pub open spec fn remaining(&self) -> Seq<VertexHandle> {
        self.handles@.skip(self.current as int)
    }

    /// Hands out the next entity of the traversal as a mutable view, or
    /// nothing when the traversal has come to its end.
    pub fn next(&mut self) -> (r: Option<VertexFnMut<'_, D>>)
        requires
            old(self).wf(),
        ensures
            final(self).handles == old(self).handles,
            *final(final(self).graph) == *final(old(self).graph),
            match r {
                Some(view) => {
                    &&& old(self).current < old(self).handles@.len()
                    &&& view.handle == old(self).handles@[old(self).current as int]
                    &&& *view.graph == *old(self).graph
                    &&& view.wf()
                    &&& final(self).current == old(self).current + 1
                    &&& *final(self).graph == *final(view.graph)
                },
                None => {
                    &&& old(self).current == old(self).handles@.len()
                    &&& final(self).current == old(self).current
                    &&& *final(self).graph == *old(self).graph
                },
            },
    {
        if self.current < self.handles.len() {
            let handle = self.handles[self.current];
            self.current = self.current + 1;
            Some(VertexFnMut::new(&mut *self.graph, handle))
        } else {
            None
        }
    }

    /// The traversal from the entity that `view` shows.
    pub fn new(view: FaceFnMut<'g, D>) -> (r: Self)
        requires
            view.wf(),
        ensures
            r.wf(),
            *r.graph == *old(view.graph),
            r.current == 0,
            r.handles@ == old(view.graph)@.face_vertices(view.handle),
            *final(view.graph) == *final(r.graph),
    {
        let read = FaceFn::new(&*view.graph, view.handle);
        let traversal = FaceVertices::new(read);
        let handles = traversal.to_handles();
        proof {
            view.graph@.lemma_face_vertices(view.handle);
        }
        FaceVerticesMut { graph: view.graph, handles, current: 0 }
    }
}

/// The edges along the boundary of a face.
pub struct FaceEdgesMut<'g, D: Data> {
    pub graph: &'g mut HalfEdgeGraph<D>,
    pub handles: Vec<EdgeHandle>,
    pub current: usize,
}

impl<'g, D: Data> FaceEdgesMut<'g, D> {
    /// The traversal is valid: its graph is well formed and holds every
    /// entity that is listed.
    pub open spec fn wf(&self) -> bool {
        &&& self.graph.wf()
        &&& self.current <= self.handles@.len()
        &&& forall|i: int|
            0 <= i < self.handles@.len() ==> self.graph@.has_edge(#[trigger] self.handles@[i])
    }

    /// What the traversal has yet to hand out, in its order.
    pub open spec fn remaining(&self) -> Seq<EdgeHandle> {
        self.handles@.skip(self.current as int)
    }

    /// Hands out the next entity of the traversal as a mutable view, or
    /// nothing when the traversal has come to its end.
    pub fn next(&mut self) -> (r: Option<EdgeFnMut<'_, D>>)
        requires
            old(self).wf(),
        ensures
            final(self).handles == old(self).handles,
            *final(final(self).graph) == *final(old(self).graph),
            match r {
                Some(view) => {
                    &&& old(self).current < old(self).handles@.len()
                    &&& view.handle == old(self).handles@[old(self).current as int]
                    &&& *view.graph == *old(self).graph
                    &&& view.wf()
                    &&& final(self).current == old(self).current + 1
                    &&& *final(self).graph == *final(view.graph)
                },
                None => {
                    &&& old(self).current == old(self).handles@.len()
                    &&& final(self).current == old(self).current
                    &&& *final(self).graph == *old(self).graph
                },
            },
    {
        if self.current < self.handles.len() {
            let handle = self.handles[self.current];
            self.current = self.current + 1;
            Some(EdgeFnMut::new(&mut *self.graph, handle))
        } else {
            None
        }
    }

    /// The traversal from the entity that `view` shows.
    pub fn new(view: FaceFnMut<'g, D>) -> (r: Self)
        requires
            view.wf(),
        ensures
            r.wf(),
            *r.graph == *old(view.graph),
            r.current == 0,
            r.handles@ == old(view.graph)@.face_edges(view.handle),
            *final(view.graph) == *final(r.graph),
    {
        let read = FaceFn::new(&*view.graph, view.handle);
        let traversal = FaceEdges::new(read);
        let handles = traversal.to_handles();
        proof {
            view.graph@.lemma_face_edges(view.handle);
        }
        FaceEdgesMut { graph: view.graph, handles, current: 0 }
    }
}

/// The faces that share an edge with a face.
pub struct FaceFacesMut<'g, D: Data> {
    pub graph: &'g mut HalfEdgeGraph<D>,
    pub handles: Vec<FaceHandle>,
    pub current: usize,
}

impl<'g, D: Data> FaceFacesMut<'g, D> {
    /// The traversal is valid: its graph is well formed and holds every
    /// entity that is listed.
    pub open spec fn wf(&self) -> bool {
        &&& self.graph.wf()
        &&& self.current <= self.handles@.len()
        &&& forall|i: int|
            0 <= i < self.handles@.len() ==> self.graph@.has_face(#[trigger] self.handles@[i])
    }

    /// What the traversal has yet to hand out, in its order.
    pub open spec fn remaining(&self) -> Seq<FaceHandle> {
        self.handles@.skip(self.current as int)
    }

    /// Hands out the next entity of the traversal as a mutable view, or
    /// nothing when the traversal has come to its end.
    pub fn next(&mut self) -> (r: Option<FaceFnMut<'_, D>>)
        requires
            old(self).wf(),
        ensures
            final(self).handles == old(self).handles,
            *final(final(self).graph) == *final(old(self).graph),
            match r {
                Some(view) => {
                    &&& old(self).current < old(self).handles@.len()
                    &&& view.handle == old(self).handles@[old(self).current as int]
                    &&& *view.graph == *old(self).graph
                    &&& view.wf()
                    &&& final(self).current == old(self).current + 1
                    &&& *final(self).graph == *final(view.graph)
                },
                None => {
                    &&& old(self).current == old(self).handles@.len()
                    &&& final(self).current == old(self).current
                    &&& *final(self).graph == *old(self).graph
                },
            },
    {
        if self.current < self.handles.len() {
            let handle = self.handles[self.current];
            self.current = self.current + 1;
            Some(FaceFnMut::new(&mut *self.graph, handle))
        } else {
            None
        }
    }

    /// The traversal from the entity that `view` shows.
    pub fn new(view: FaceFnMut<'g, D>) -> (r: Self)
        requires
            view.wf(),
        ensures
            r.wf(),
            *r.graph == *old(view.graph),
            r.current == 0,
            r.handles@ == old(view.graph)@.face_faces(view.handle),
            *final(view.graph) == *final(r.graph),
    {
        let read = FaceFn::new(&*view.graph, view.handle);
        let traversal = FaceFaces::new(read);
        let handles = traversal.to_handles();
        proof {
            view.graph@.lemma_face_faces(view.handle);
        }
        FaceFacesMut { graph: view.graph, handles, current: 0 }
    }
}

impl<'g, D: Data> VertexFnMut<'g, D> {
    /// The half-edges that leave a vertex, as a mutable traversal. This view is
    /// not to be used until the traversal is given up.
    pub fn out_half_edges_mut(&mut self) -> (r: VertexOutHalfEdgesMut<'_, D>)
        requires
            old(self).wf(),
        ensures
            r.wf(),
            *r.graph == *old(self).graph,
            r.current == 0,
            r.handles@ == old(self).graph@.out_half_edges(old(self).handle),
            final(self).handle == old(self).handle,
            *final(self).graph == *final(r.graph),
            *final(final(self).graph) == *final(old(self).graph),
    {
        VertexOutHalfEdgesMut::new(VertexFnMut::new(&mut *self.graph, self.handle))
    }

    /// The half-edges that point to a vertex, as a mutable traversal. This view is
    /// not to be used until the traversal is given up.
    pub fn in_half_edges_mut(&mut self) -> (r: VertexInHalfEdgesMut<'_, D>)
        requires
            old(self).wf(),
        ensures
            r.wf(),
            *r.graph == *old(self).graph,
            r.current == 0,
            r.handles@ == old(self).graph@.in_half_edges(old(self).handle),
            final(self).handle == old(self).handle,
            *final(self).graph == *final(r.graph),
            *final(final(self).graph) == *final(old(self).graph),
    {
        VertexInHalfEdgesMut::new(VertexFnMut::new(&mut *self.graph, self.handle))
    }

    /// The vertices that an edge joins to a vertex, as a mutable traversal. This view is
    /// not to be used until the traversal is given up.
    pub fn vertices_mut(&mut self) -> (r: VertexVertexMut<'_, D>)
        requires
            old(self).wf(),
        ensures
            r.wf(),
            *r.graph == *old(self).graph,
            r.current == 0,
            r.handles@ == old(self).graph@.vertex_vertices(old(self).handle),
            final(self).handle == old(self).handle,
            *final(self).graph == *final(r.graph),
            *final(final(self).graph) == *final(old(self).graph),
    {
        VertexVertexMut::new(VertexFnMut::new(&mut *self.graph, self.handle))
    }

    /// The edges at a vertex, as a mutable traversal. This view is
    /// not to be used until the traversal is given up.
    pub fn edges_mut(&mut self) -> (r: VertexEdgesMut<'_, D>)
        requires
            old(self).wf(),
        ensures
            r.wf(),
            *r.graph == *old(self).graph,
            r.current == 0,
            r.handles@ == old(self).graph@.vertex_edges(old(self).handle),
            final(self).handle == old(self).handle,
            *final(self).graph == *final(r.graph),
            *final(final(self).graph) == *final(old(self).graph),
    {
        VertexEdgesMut::new(VertexFnMut::new(&mut *self.graph, self.handle))
    }

    /// The faces round a vertex, as a mutable traversal. This view is
    /// not to be used until the traversal is given up.
    pub fn faces_mut(&mut self) -> (r: VertexFacesMut<'_, D>)
        requires
            old(self).wf(),
        ensures
            r.wf(),
            *r.graph == *old(self).graph,
            r.current == 0,
            r.handles@ == old(self).graph@.vertex_faces(old(self).handle),
            final(self).handle == old(self).handle,
            *final(self).graph == *final(r.graph),
            *final(final(self).graph) == *final(old(self).graph),
    {
        VertexFacesMut::new(VertexFnMut::new(&mut *self.graph, self.handle))
    }
}

impl<'g, D: Data> EdgeFnMut<'g, D> {
    /// The faces on the two sides of an edge, as a mutable traversal. This view is
    /// not to be used until the traversal is given up.
    pub fn faces_mut(&mut self) -> (r: EdgeFacesMut<'_, D>)
        requires
            old(self).wf(),
        ensures
            r.wf(),
            *r.graph == *old(self).graph,
            r.current == 0,
            r.handles@ == old(self).graph@.edge_faces(old(self).handle),
            final(self).handle == old(self).handle,
            *final(self).graph == *final(r.graph),
            *final(final(self).graph) == *final(old(self).graph),
    {
        EdgeFacesMut::new(EdgeFnMut::new(&mut *self.graph, self.handle))
    }
}

impl<'g, D: Data> FaceFnMut<'g, D> {
    /// The vertices along the boundary of a face, as a mutable traversal. This view is
    /// not to be used until the traversal is given up.
    pub fn vertices_mut(&mut self) -> (r: FaceVerticesMut<'_, D>)
        requires
            old(self).wf(),
        ensures
            r.wf(),
            *r.graph == *old(self).graph,
            r.current == 0,
            r.handles@ == old(self).graph@.face_vertices(old(self).handle),
            final(self).handle == old(self).handle,
            *final(self).graph == *final(r.graph),
            *final(final(self).graph) == *final(old(self).graph),
    {
        FaceVerticesMut::new(FaceFnMut::new(&mut *self.graph, self.handle))
    }

    /// The edges along the boundary of a face, as a mutable traversal. This view is
    /// not to be used until the traversal is given up.
    pub fn edges_mut(&mut self) -> (r: FaceEdgesMut<'_, D>)
        requires
            old(self).wf(),
        ensures
            r.wf(),
            *r.graph == *old(self).graph,
            r.current == 0,
            r.handles@ == old(self).graph@.face_edges(old(self).handle),
            final(self).handle == old(self).handle,
            *final(self).graph == *final(r.graph),
            *final(final(self).graph) == *final(old(self).graph),
    {
        FaceEdgesMut::new(FaceFnMut::new(&mut *self.graph, self.handle))
    }

    /// The faces that share an edge with a face, as a mutable traversal. This view is
    /// not to be used until the traversal is given up.
    pub fn faces_mut(&mut self) -> (r: FaceFacesMut<'_, D>)
        requires
            old(self).wf(),
        ensures
            r.wf(),
            *r.graph == *old(self).graph,
            r.current == 0,
            r.handles@ == old(self).graph@.face_faces(old(self).handle),
            final(self).handle == old(self).handle,
            *final(self).graph == *final(r.graph),
            *final(final(self).graph) == *final(old(self).graph),
    {
        FaceFacesMut::new(FaceFnMut::new(&mut *self.graph, self.handle))
    }
}

impl<D: Data> HalfEdgeGraph<D> {
    /// The vertices of a graph, in the order in which they were made, as a mutable traversal.
    pub fn iter_vertices_mut(&mut self) -> (r: VerticesMut<'_, D>)
        requires
            old(self).wf(),
        ensures
            r.wf(),
            *r.graph == *old(self),
            r.current == 0,
            r.handles@ == old(self).vertex_order(),
            *final(self) == *final(r.graph),
    {
        VerticesMut::new(self)
    }

    /// The half-edges of a graph, in the order in which they were made, as a mutable traversal.
    pub fn iter_half_edges_mut(&mut self) -> (r: HalfEdgesMut<'_, D>)
        requires
            old(self).wf(),
        ensures
            r.wf(),
            *r.graph == *old(self),
            r.current == 0,
            r.handles@ == old(self).half_edge_order(),
            *final(self) == *final(r.graph),
    {
        HalfEdgesMut::new(self)
    }

    /// The edges of a graph, in the order in which they were made, as a mutable traversal.
    pub fn iter_edges_mut(&mut self) -> (r: EdgesMut<'_, D>)
        requires
            old(self).wf(),
        ensures
            r.wf(),
            *r.graph == *old(self),
            r.current == 0,
            r.handles@ == old(self).edge_order(),
            *final(self) == *final(r.graph),
    {
        EdgesMut::new(self)
    }

    /// The faces of a graph, in the order in which they were made, as a mutable traversal.
    pub fn iter_faces_mut(&mut self) -> (r: FacesMut<'_, D>)
        requires
            old(self).wf(),
        ensures
            r.wf(),
            *r.graph == *old(self),
            r.current == 0,
            r.handles@ == old(self).face_order(),
            *final(self) == *final(r.graph),
    {
        FacesMut::new(self)
    }
}

} // verus!
