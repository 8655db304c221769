//! The graph itself: four arenas, the view that reads them as a
//! [`Topology`], and the single steps by which the builder changes them.

use crate::arena::Arena;
use crate::data::Data;
use crate::handle::{EdgeHandle, FaceHandle, HalfEdgeHandle, VertexHandle};
use crate::slots::SLOT_LIMIT;
use crate::topology::{Links, Topology};
use vstd::prelude::*;

verus! {

pub(crate) struct Vertex<T> {
    pub(crate) data: T,
    pub(crate) hedge: HalfEdgeHandle,
}

pub(crate) struct Edge<T> {
    pub(crate) data: T,
    pub(crate) hedge: HalfEdgeHandle,
}

pub(crate) struct Face<T> {
    pub(crate) data: T,
    pub(crate) hedge: HalfEdgeHandle,
}

pub(crate) struct HalfEdge<T> {
    pub(crate) data: T,
    pub(crate) pair: HalfEdgeHandle,
    pub(crate) next: HalfEdgeHandle,
    pub(crate) prev: HalfEdgeHandle,
    pub(crate) vertex: VertexHandle,
    pub(crate) edge: EdgeHandle,
    pub(crate) face: FaceHandle,
}

/// A half-edge graph that carries the payloads named by `D`.
pub struct HalfEdgeGraph<D: Data> {
    pub(crate) half_edges: Arena<HalfEdge<D::HalfEdge>>,
    pub(crate) faces: Arena<Face<D::Face>>,
    pub(crate) edges: Arena<Edge<D::Edge>>,
    pub(crate) vertices: Arena<Vertex<D::Vertex>>,
    pub(crate) rings: Ghost<Map<VertexHandle, Seq<HalfEdgeHandle>>>,
    pub(crate) loops: Ghost<Map<FaceHandle, Seq<HalfEdgeHandle>>>,
}

/// A stored half-edge link as the model reads it: a null handle is no link.
pub(crate) open spec fn hedge_link(h: HalfEdgeHandle) -> Option<HalfEdgeHandle> {
    if h.null_spec() {
        None
    } else {
        Some(h)
    }
}

/// A stored face link as the model reads it: a null handle is no face.
pub(crate) open spec fn face_link(f: FaceHandle) -> Option<FaceHandle> {
    if f.null_spec() {
        None
    } else {
        Some(f)
    }
}

impl<T> HalfEdge<T> {
    pub(crate) open spec fn links(self) -> Links {
        Links {
            pair: self.pair,
            next: self.next,
            prev: self.prev,
            vertex: self.vertex,
            edge: self.edge,
            face: face_link(self.face),
        }
    }
}

impl<D: Data> HalfEdgeGraph<D> {
    /// The graph as a mathematical value.
    pub closed spec fn view(&self) -> Topology {
        Topology {
            vertices: Map::new(
                |v: VertexHandle| self.vertices@.dom().contains(v.key()),
                |v: VertexHandle| hedge_link(self.vertices@[v.key()].hedge),
            ),
            edges: Map::new(
                |e: EdgeHandle| self.edges@.dom().contains(e.key()),
                |e: EdgeHandle| self.edges@[e.key()].hedge,
            ),
            faces: Map::new(
                |f: FaceHandle| self.faces@.dom().contains(f.key()),
                |f: FaceHandle| self.faces@[f.key()].hedge,
            ),
            half_edges: Map::new(
                |h: HalfEdgeHandle| self.half_edges@.dom().contains(h.key()),
                |h: HalfEdgeHandle| self.half_edges@[h.key()].links(),
            ),
            rings: self.rings@,
            loops: self.loops@,
        }
    }

    /// The payload of each vertex.
    pub closed spec fn vertex_data(&self) -> Map<VertexHandle, D::Vertex> {
        Map::new(
            |v: VertexHandle| self.vertices@.dom().contains(v.key()),
            |v: VertexHandle| self.vertices@[v.key()].data,
        )
    }

    /// The payload of each edge.
    pub closed spec fn edge_data(&self) -> Map<EdgeHandle, D::Edge> {
        Map::new(
            |e: EdgeHandle| self.edges@.dom().contains(e.key()),
            |e: EdgeHandle| self.edges@[e.key()].data,
        )
    }

    /// The payload of each face.
    pub closed spec fn face_data(&self) -> Map<FaceHandle, D::Face> {
        Map::new(
            |f: FaceHandle| self.faces@.dom().contains(f.key()),
            |f: FaceHandle| self.faces@[f.key()].data,
        )
    }

    /// The payload of each half-edge.
    pub closed spec fn half_edge_data(&self) -> Map<HalfEdgeHandle, D::HalfEdge> {
        Map::new(
            |h: HalfEdgeHandle| self.half_edges@.dom().contains(h.key()),
            |h: HalfEdgeHandle| self.half_edges@[h.key()].data,
        )
    }

    /// The number of vertices.
    pub closed spec fn vertex_count(&self) -> nat {
        self.vertices.spec_len()
    }

    /// The number of edges.
    pub closed spec fn edge_count(&self) -> nat {
        self.edges.spec_len()
    }

    /// The number of faces.
    pub closed spec fn face_count(&self) -> nat {
        self.faces.spec_len()
    }

    /// The number of half-edges.
    pub closed spec fn half_edge_count(&self) -> nat {
        self.half_edges.spec_len()
    }

    /// The arenas are consistent, and no entity of the graph has a null
    /// handle. This says nothing yet about the links.
    pub closed spec fn stored(&self) -> bool {
        &&& self.half_edges.wf()
        &&& self.faces.wf()
        &&& self.edges.wf()
        &&& self.vertices.wf()
    }

    /// The graph is valid: its storage is consistent and its links form a
    /// well-formed topology.
    pub open spec fn wf(&self) -> bool {
        self.stored() && self@.wf()
    }

    /// No entity of a stored graph has a null handle.
    pub proof fn law_no_null(&self)
        requires
            self.stored(),
        ensures
            forall|v: VertexHandle| #[trigger] self@.has_vertex(v) ==> !v.null_spec(),
            forall|e: EdgeHandle| #[trigger] self@.has_edge(e) ==> !e.null_spec(),
            forall|f: FaceHandle| #[trigger] self@.has_face(f) ==> !f.null_spec(),
            forall|h: HalfEdgeHandle| #[trigger] self@.has(h) ==> !h.null_spec(),
    {
        assert forall|v: VertexHandle| #[trigger] self@.has_vertex(v) implies !v.null_spec() by {
            assert(self.vertices.keys().contains(v.key()));
        }
        assert forall|e: EdgeHandle| #[trigger] self@.has_edge(e) implies !e.null_spec() by {
            assert(self.edges.keys().contains(e.key()));
        }
        assert forall|f: FaceHandle| #[trigger] self@.has_face(f) implies !f.null_spec() by {
            assert(self.faces.keys().contains(f.key()));
        }
        assert forall|h: HalfEdgeHandle| #[trigger] self@.has(h) implies !h.null_spec() by {
            assert(self.half_edges.keys().contains(h.key()));
        }
    }


    /// Whether two graphs carry the same payloads and hold equally many
    /// entities of each kind.
    pub open spec fn same_data(&self, other: &Self) -> bool {
        &&& self.vertex_data() == other.vertex_data()
        &&& self.edge_data() == other.edge_data()
        &&& self.face_data() == other.face_data()
        &&& self.half_edge_data() == other.half_edge_data()
        &&& self.vertex_count() == other.vertex_count()
        &&& self.edge_count() == other.edge_count()
        &&& self.face_count() == other.face_count()
        &&& self.half_edge_count() == other.half_edge_count()
        &&& self.vertex_order() == other.vertex_order()
        &&& self.edge_order() == other.edge_order()
        &&& self.face_order() == other.face_order()
        &&& self.half_edge_order() == other.half_edge_order()
    }

    /// Whether `x` is a value that the default of the payload type of
    /// edges gives.
    pub open spec fn default_edge(x: D::Edge) -> bool {
        call_ensures(<D::Edge as Default>::default, (), x)
    }

    /// Whether `x` is a value that the default of the payload type of
    /// half-edges gives.
    pub open spec fn default_half_edge(x: D::HalfEdge) -> bool {
        call_ensures(<D::HalfEdge as Default>::default, (), x)
    }

    /// Whether `self` carries the payloads of `before` and more: the same
    /// vertices and faces with the same payloads, the edges and half-edges
    /// of `before` with the payloads they had and before all others, and
    /// every other edge and half-edge with a default payload.
    pub open spec fn data_grows_from(&self, before: &Self) -> bool {
        &&& self.vertex_data() == before.vertex_data()
        &&& self.face_data() == before.face_data()
        &&& before.edge_data().submap_of(self.edge_data())
        &&& before.half_edge_data().submap_of(self.half_edge_data())
        &&& self.vertex_count() == before.vertex_count()
        &&& self.face_count() == before.face_count()
        &&& self.edge_count() >= before.edge_count()
        &&& self.half_edge_count() >= before.half_edge_count()
        &&& self.vertex_order() == before.vertex_order()
        &&& self.face_order() == before.face_order()
        &&& before.edge_order().is_prefix_of(self.edge_order())
        &&& before.half_edge_order().is_prefix_of(self.half_edge_order())
        &&& forall|e: EdgeHandle|
            self.edge_data().dom().contains(e) && !before.edge_data().dom().contains(e)
                ==> Self::default_edge(#[trigger] self.edge_data()[e])
        &&& forall|h: HalfEdgeHandle|
            self.half_edge_data().dom().contains(h) && !before.half_edge_data().dom().contains(h)
                ==> Self::default_half_edge(#[trigger] self.half_edge_data()[h])
    }

    /// The payload maps have the domains of the model's maps.
    pub proof fn lemma_data_domains(&self)
        ensures
            self.vertex_data().dom() == self@.vertices.dom(),
            self.edge_data().dom() == self@.edges.dom(),
            self.face_data().dom() == self@.faces.dom(),
            self.half_edge_data().dom() == self@.half_edges.dom(),
    {
        assert(self.vertex_data().dom() =~= self@.vertices.dom());
        assert(self.edge_data().dom() =~= self@.edges.dom());
        assert(self.face_data().dom() =~= self@.faces.dom());
        assert(self.half_edge_data().dom() =~= self@.half_edges.dom());
    }

    pub(crate) fn contains_vertex(&self, v: VertexHandle) -> (r: bool)
        ensures
            r == self@.has_vertex(v),
    {
        self.vertices.contains(v.raw())
    }

    pub(crate) fn contains_edge(&self, e: EdgeHandle) -> (r: bool)
        ensures
            r == self@.has_edge(e),
    {
        self.edges.contains(e.raw())
    }

    pub(crate) fn contains_face(&self, f: FaceHandle) -> (r: bool)
        ensures
            r == self@.has_face(f),
    {
        self.faces.contains(f.raw())
    }

    pub(crate) fn contains_half_edge(&self, h: HalfEdgeHandle) -> (r: bool)
        ensures
            r == self@.has(h),
    {
        self.half_edges.contains(h.raw())
    }

    pub(crate) fn pair_of(&self, h: HalfEdgeHandle) -> (r: HalfEdgeHandle)
        requires
            self.stored(),
            self@.has(h),
        ensures
            r == self@.pair(h),
    {
        self.half_edges.at(h.raw()).pair
    }

    pub(crate) fn next_of(&self, h: HalfEdgeHandle) -> (r: HalfEdgeHandle)
        requires
            self.stored(),
            self@.has(h),
        ensures
            r == self@.next(h),
    {
        self.half_edges.at(h.raw()).next
    }

    pub(crate) fn prev_of(&self, h: HalfEdgeHandle) -> (r: HalfEdgeHandle)
        requires
            self.stored(),
            self@.has(h),
        ensures
            r == self@.prev(h),
    {
        self.half_edges.at(h.raw()).prev
    }

    pub(crate) fn target_of(&self, h: HalfEdgeHandle) -> (r: VertexHandle)
        requires
            self.stored(),
            self@.has(h),
        ensures
            r == self@.target(h),
    {
        self.half_edges.at(h.raw()).vertex
    }

    pub(crate) fn edge_of(&self, h: HalfEdgeHandle) -> (r: EdgeHandle)
        requires
            self.stored(),
            self@.has(h),
        ensures
            r == self@.edge(h),
    {
        self.half_edges.at(h.raw()).edge
    }

    pub(crate) fn face_of(&self, h: HalfEdgeHandle) -> (r: Option<FaceHandle>)
        requires
            self.stored(),
            self@.has(h),
        ensures
            r == self@.face(h),
    {
        let f = self.half_edges.at(h.raw()).face;
        if f.is_null() {
            None
        } else {
            Some(f)
        }
    }

    pub(crate) fn hedge_of_vertex(&self, v: VertexHandle) -> (r: Option<HalfEdgeHandle>)
        requires
            self.stored(),
            self@.has_vertex(v),
        ensures
            r == self@.vertices[v],
    {
        let h = self.vertices.at(v.raw()).hedge;
        if h.is_null() {
            None
        } else {
            Some(h)
        }
    }

    pub(crate) fn hedge_of_edge(&self, e: EdgeHandle) -> (r: HalfEdgeHandle)
        requires
            self.stored(),
            self@.has_edge(e),
        ensures
            r == self@.edges[e],
    {
        self.edges.at(e.raw()).hedge
    }

    pub(crate) fn hedge_of_face(&self, f: FaceHandle) -> (r: HalfEdgeHandle)
        requires
            self.stored(),
            self@.has_face(f),
        ensures
            r == self@.faces[f],
    {
        self.faces.at(f.raw()).hedge
    }

    pub(crate) fn set_next(&mut self, h: HalfEdgeHandle, n: HalfEdgeHandle)
        requires
            old(self).stored(),
            old(self)@.has(h),
        ensures
            final(self).stored(),
            final(self).same_data(old(self)),
            final(self)@ == (Topology {
                half_edges: old(self)@.half_edges.insert(
                    h,
                    Links { next: n, ..old(self)@.half_edges[h] },
                ),
                ..old(self)@
            }),
    {
        broadcast use crate::handle::group_handle_keys;

        let rec = self.half_edges.at_mut(h.raw());
        rec.next = n;
        proof {
            assert(self@.half_edges =~= old(self)@.half_edges.insert(
                h,
                Links { next: n, ..old(self)@.half_edges[h] },
            ));
            assert(self.half_edge_data() =~= old(self).half_edge_data());
            assert(self.half_edge_order() =~= old(self).half_edge_order());
        }
    }


    pub(crate) fn set_prev(&mut self, h: HalfEdgeHandle, p: HalfEdgeHandle)
        requires
            old(self).stored(),
            old(self)@.has(h),
        ensures
            final(self).stored(),
            final(self).same_data(old(self)),
            final(self)@ == (Topology {
                half_edges: old(self)@.half_edges.insert(
                    h,
                    Links { prev: p, ..old(self)@.half_edges[h] },
                ),
                ..old(self)@
            }),
    {
        broadcast use crate::handle::group_handle_keys;

        let rec = self.half_edges.at_mut(h.raw());
        rec.prev = p;
        proof {
            assert(self@.half_edges =~= old(self)@.half_edges.insert(
                h,
                Links { prev: p, ..old(self)@.half_edges[h] },
            ));
            assert(self.half_edge_data() =~= old(self).half_edge_data());
            assert(self.half_edge_order() =~= old(self).half_edge_order());
        }
    }

    pub(crate) fn set_pair(&mut self, h: HalfEdgeHandle, p: HalfEdgeHandle)
        requires
            old(self).stored(),
            old(self)@.has(h),
        ensures
            final(self).stored(),
            final(self).same_data(old(self)),
            final(self)@ == (Topology {
                half_edges: old(self)@.half_edges.insert(
                    h,
                    Links { pair: p, ..old(self)@.half_edges[h] },
                ),
                ..old(self)@
            }),
    {
        broadcast use crate::handle::group_handle_keys;

        let rec = self.half_edges.at_mut(h.raw());
        rec.pair = p;
        proof {
            assert(self@.half_edges =~= old(self)@.half_edges.insert(
                h,
                Links { pair: p, ..old(self)@.half_edges[h] },
            ));
            assert(self.half_edge_data() =~= old(self).half_edge_data());
            assert(self.half_edge_order() =~= old(self).half_edge_order());
        }
    }

    pub(crate) fn set_face(&mut self, h: HalfEdgeHandle, f: FaceHandle)
        requires
            old(self).stored(),
            old(self)@.has(h),
            !f.null_spec(),
        ensures
            final(self).stored(),
            final(self).same_data(old(self)),
            final(self)@ == (Topology {
                half_edges: old(self)@.half_edges.insert(
                    h,
                    Links { face: Some(f), ..old(self)@.half_edges[h] },
                ),
                ..old(self)@
            }),
    {
        broadcast use crate::handle::group_handle_keys;

        let rec = self.half_edges.at_mut(h.raw());
        rec.face = f;
        proof {
            assert(self@.half_edges =~= old(self)@.half_edges.insert(
                h,
                Links { face: Some(f), ..old(self)@.half_edges[h] },
            ));
            assert(self.half_edge_data() =~= old(self).half_edge_data());
            assert(self.half_edge_order() =~= old(self).half_edge_order());
        }
    }

    pub(crate) fn set_vertex_hedge(&mut self, v: VertexHandle, h: HalfEdgeHandle)
        requires
            old(self).stored(),
            old(self)@.has_vertex(v),
            !h.null_spec(),
        ensures
            final(self).stored(),
            final(self).same_data(old(self)),
            final(self)@ == (Topology {
                vertices: old(self)@.vertices.insert(v, Some(h)),
                ..old(self)@
            }),
    {
        broadcast use crate::handle::group_handle_keys;

        let rec = self.vertices.at_mut(v.raw());
        rec.hedge = h;
        proof {
            assert(self@.vertices =~= old(self)@.vertices.insert(v, Some(h)));
            assert(self.vertex_data() =~= old(self).vertex_data());
            assert(self.vertex_order() =~= old(self).vertex_order());
        }
    }

    pub(crate) fn set_edge_hedge(&mut self, e: EdgeHandle, h: HalfEdgeHandle)
        requires
            old(self).stored(),
            old(self)@.has_edge(e),
        ensures
            final(self).stored(),
            final(self).same_data(old(self)),
            final(self)@ == (Topology { edges: old(self)@.edges.insert(e, h), ..old(self)@ }),
    {
        broadcast use crate::handle::group_handle_keys;

        let rec = self.edges.at_mut(e.raw());
        rec.hedge = h;
        proof {
            assert(self@.edges =~= old(self)@.edges.insert(e, h));
            assert(self.edge_data() =~= old(self).edge_data());
            assert(self.edge_order() =~= old(self).edge_order());
        }
    }

    pub(crate) fn set_rings(&mut self, rings: Ghost<Map<VertexHandle, Seq<HalfEdgeHandle>>>)
        ensures
            final(self).stored() == old(self).stored(),
            final(self).same_data(old(self)),
            final(self)@ == (Topology { rings: rings@, ..old(self)@ }),
    {
        self.rings = rings;
    }

    pub(crate) fn set_loops(&mut self, loops: Ghost<Map<FaceHandle, Seq<HalfEdgeHandle>>>)
        ensures
            final(self).stored() == old(self).stored(),
            final(self).same_data(old(self)),
            final(self)@ == (Topology { loops: loops@, ..old(self)@ }),
    {
        self.loops = loops;
    }

    /// Stores a new vertex without a representative. Its ring is not set.
    pub(crate) fn alloc_vertex(&mut self, data: D::Vertex) -> (v: VertexHandle)
        requires
            old(self).stored(),
            old(self).vertex_count() < SLOT_LIMIT,
        ensures
            final(self).stored(),
            final(self).vertex_order() == old(self).vertex_order().push(v),
            final(self).edge_order() == old(self).edge_order(),
            final(self).face_order() == old(self).face_order(),
            final(self).half_edge_order() == old(self).half_edge_order(),
            !old(self)@.has_vertex(v),
            !v.null_spec(),
            final(self)@ == (Topology {
                vertices: old(self)@.vertices.insert(v, None),
                ..old(self)@
            }),
            final(self).vertex_data() == old(self).vertex_data().insert(v, data),
            final(self).edge_data() == old(self).edge_data(),
            final(self).face_data() == old(self).face_data(),
            final(self).half_edge_data() == old(self).half_edge_data(),
            final(self).vertex_count() == old(self).vertex_count() + 1,
            final(self).edge_count() == old(self).edge_count(),
            final(self).face_count() == old(self).face_count(),
            final(self).half_edge_count() == old(self).half_edge_count(),
    {
        broadcast use crate::handle::group_handle_keys;

        let hedge = HalfEdgeHandle::null();
        let key = self.vertices.allocate(Vertex { data, hedge });
        let v = VertexHandle::of_key(key);
        proof {
            assert(self@.vertices =~= old(self)@.vertices.insert(v, None));
            assert(self.vertex_data() =~= old(self).vertex_data().insert(v, data));
            assert(self.vertex_order() =~= old(self).vertex_order().push(v));
        }
        v
    }

    /// Stores a new edge with the given representative.
    pub(crate) fn alloc_edge(&mut self, data: D::Edge, hedge: HalfEdgeHandle) -> (e: EdgeHandle)
        requires
            old(self).stored(),
            old(self).edge_count() < SLOT_LIMIT,
        ensures
            final(self).stored(),
            final(self).edge_order() == old(self).edge_order().push(e),
            final(self).vertex_order() == old(self).vertex_order(),
            final(self).face_order() == old(self).face_order(),
            final(self).half_edge_order() == old(self).half_edge_order(),
            !old(self)@.has_edge(e),
            !e.null_spec(),
            final(self)@ == (Topology { edges: old(self)@.edges.insert(e, hedge), ..old(self)@ }),
            final(self).vertex_data() == old(self).vertex_data(),
            final(self).edge_data() == old(self).edge_data().insert(e, data),
            final(self).face_data() == old(self).face_data(),
            final(self).half_edge_data() == old(self).half_edge_data(),
            final(self).vertex_count() == old(self).vertex_count(),
            final(self).edge_count() == old(self).edge_count() + 1,
            final(self).face_count() == old(self).face_count(),
            final(self).half_edge_count() == old(self).half_edge_count(),
    {
        broadcast use crate::handle::group_handle_keys;

        let key = self.edges.allocate(Edge { data, hedge });
        let e = EdgeHandle::of_key(key);
        proof {
            assert(self@.edges =~= old(self)@.edges.insert(e, hedge));
            assert(self.edge_data() =~= old(self).edge_data().insert(e, data));
            assert(self.edge_order() =~= old(self).edge_order().push(e));
        }
        e
    }

    /// Stores a new face with the given representative. Its loop is not set.
    pub(crate) fn alloc_face(&mut self, data: D::Face, hedge: HalfEdgeHandle) -> (f: FaceHandle)
        requires
            old(self).stored(),
            old(self).face_count() < SLOT_LIMIT,
        ensures
            final(self).stored(),
            final(self).face_order() == old(self).face_order().push(f),
            final(self).vertex_order() == old(self).vertex_order(),
            final(self).edge_order() == old(self).edge_order(),
            final(self).half_edge_order() == old(self).half_edge_order(),
            !old(self)@.has_face(f),
            !f.null_spec(),
            final(self)@ == (Topology { faces: old(self)@.faces.insert(f, hedge), ..old(self)@ }),
            final(self).vertex_data() == old(self).vertex_data(),
            final(self).edge_data() == old(self).edge_data(),
            final(self).face_data() == old(self).face_data().insert(f, data),
            final(self).half_edge_data() == old(self).half_edge_data(),
            final(self).vertex_count() == old(self).vertex_count(),
            final(self).edge_count() == old(self).edge_count(),
            final(self).face_count() == old(self).face_count() + 1,
            final(self).half_edge_count() == old(self).half_edge_count(),
    {
        broadcast use crate::handle::group_handle_keys;

        let key = self.faces.allocate(Face { data, hedge });
        let f = FaceHandle::of_key(key);
        proof {
            assert(self@.faces =~= old(self)@.faces.insert(f, hedge));
            assert(self.face_data() =~= old(self).face_data().insert(f, data));
            assert(self.face_order() =~= old(self).face_order().push(f));
        }
        f
    }

    /// Stores a new half-edge that lies on no face, with the default
    /// payload and the given links.
    pub(crate) fn alloc_half_edge(
        &mut self,
        pair: HalfEdgeHandle,
        next: HalfEdgeHandle,
        prev: HalfEdgeHandle,
        vertex: VertexHandle,
        edge: EdgeHandle,
    ) -> (h: HalfEdgeHandle)
        requires
            old(self).stored(),
            old(self).half_edge_count() < SLOT_LIMIT,
        ensures
            final(self).stored(),
            final(self).half_edge_order() == old(self).half_edge_order().push(h),
            final(self).vertex_order() == old(self).vertex_order(),
            final(self).edge_order() == old(self).edge_order(),
            final(self).face_order() == old(self).face_order(),
            !old(self)@.has(h),
            !h.null_spec(),
            final(self)@ == (Topology {
                half_edges: old(self)@.half_edges.insert(
                    h,
                    Links { pair, next, prev, vertex, edge, face: None },
                ),
                ..old(self)@
            }),
            final(self).vertex_data() == old(self).vertex_data(),
            final(self).edge_data() == old(self).edge_data(),
            final(self).face_data() == old(self).face_data(),
            final(self).half_edge_data().dom() == old(self).half_edge_data().dom().insert(h),
            Self::default_half_edge(final(self).half_edge_data()[h]),
            forall|g: HalfEdgeHandle|
                old(self)@.has(g) ==> #[trigger] final(self).half_edge_data()[g] == old(
                    self,
                ).half_edge_data()[g],
            final(self).vertex_count() == old(self).vertex_count(),
            final(self).edge_count() == old(self).edge_count(),
            final(self).face_count() == old(self).face_count(),
            final(self).half_edge_count() == old(self).half_edge_count() + 1,
    {
        broadcast use crate::handle::group_handle_keys;

        let data = <D::HalfEdge as Default>::default();
        let face = FaceHandle::null();
        let key = self.half_edges.allocate(HalfEdge { data, pair, next, prev, vertex, edge, face });
        let h = HalfEdgeHandle::of_key(key);
        proof {
            assert(self@.half_edges =~= old(self)@.half_edges.insert(
                h,
                Links { pair, next, prev, vertex, edge, face: None },
            ));
            assert(self.half_edge_data().dom() =~= old(self).half_edge_data().dom().insert(h));
            assert(self.half_edge_order() =~= old(self).half_edge_order().push(h));
        }
        h
    }


    /// The payload of a vertex, or nothing if the handle names none.
    pub fn get_vertex_data(&self, handle: VertexHandle) -> (r: Option<&D::Vertex>)
        requires
            self.wf(),
        ensures
            r == (if self@.has_vertex(handle) {
                Some(&self.vertex_data()[handle])
            } else {
                None
            }),
    {
        match self.vertices.get(handle.raw()) {
            Some(record) => Some(&record.data),
            None => None,
        }
    }

    /// The payload of a vertex, for writing, or nothing if the handle names
    /// none. The links of the graph stay as they are.
    pub fn get_vertex_data_mut(&mut self, handle: VertexHandle) -> (r: Option<&mut D::Vertex>)
        requires
            old(self).wf(),
        ensures
            final(self)@ =~= old(self)@ && final(self).wf(),
            r is Some <==> old(self)@.has_vertex(handle),
            match r {
                Some(data) => *data == old(self).vertex_data()[handle] && final(self).vertex_data()
                    =~= old(self).vertex_data().insert(handle, *final(data)),
                None => final(self).vertex_data() == old(self).vertex_data(),
            },
            final(self).half_edge_data() == old(self).half_edge_data(),
            final(self).edge_data() == old(self).edge_data(),
            final(self).face_data() == old(self).face_data(),
            final(self).vertex_count() == old(self).vertex_count(),
            final(self).edge_count() == old(self).edge_count(),
            final(self).face_count() == old(self).face_count(),
            final(self).half_edge_count() == old(self).half_edge_count(),
            final(self).vertex_order() =~= old(self).vertex_order(),
            final(self).edge_order() =~= old(self).edge_order(),
            final(self).face_order() =~= old(self).face_order(),
            final(self).half_edge_order() =~= old(self).half_edge_order(),
    {
        broadcast use crate::handle::group_handle_keys;

        if self.vertices.contains(handle.raw()) {
            let record = self.vertices.at_mut(handle.raw());
            Some(&mut record.data)
        } else {
            None
        }
    }

    /// The payload of a vertex of the graph.
    pub(crate) fn vertex_payload(&self, handle: VertexHandle) -> (r: &D::Vertex)
        requires
            self.stored(),
            self@.has_vertex(handle),
        ensures
            *r == self.vertex_data()[handle],
    {
        &self.vertices.at(handle.raw()).data
    }

    /// The number of vertices.
    pub fn vertex_len(&self) -> (n: usize)
        ensures
            n == self.vertex_count(),
    {
        self.vertices.len()
    }

    /// The payload of a half-edge, or nothing if the handle names none.
    pub fn get_half_edge_data(&self, handle: HalfEdgeHandle) -> (r: Option<&D::HalfEdge>)
        requires
            self.wf(),
        ensures
            r == (if self@.has(handle) {
                Some(&self.half_edge_data()[handle])
            } else {
                None
            }),
    {
        match self.half_edges.get(handle.raw()) {
            Some(record) => Some(&record.data),
            None => None,
        }
    }

    /// The payload of a half-edge, for writing, or nothing if the handle names
    /// none. The links of the graph stay as they are.
    pub fn get_half_edge_data_mut(&mut self, handle: HalfEdgeHandle) -> (r: Option<&mut D::HalfEdge>)
        requires
            old(self).wf(),
        ensures
            final(self)@ =~= old(self)@ && final(self).wf(),
            r is Some <==> old(self)@.has(handle),
            match r {
                Some(data) => *data == old(self).half_edge_data()[handle] && final(self).half_edge_data()
                    =~= old(self).half_edge_data().insert(handle, *final(data)),
                None => final(self).half_edge_data() == old(self).half_edge_data(),
            },
            final(self).vertex_data() == old(self).vertex_data(),
            final(self).edge_data() == old(self).edge_data(),
            final(self).face_data() == old(self).face_data(),
            final(self).vertex_count() == old(self).vertex_count(),
            final(self).edge_count() == old(self).edge_count(),
            final(self).face_count() == old(self).face_count(),
            final(self).half_edge_count() == old(self).half_edge_count(),
            final(self).vertex_order() =~= old(self).vertex_order(),
            final(self).edge_order() =~= old(self).edge_order(),
            final(self).face_order() =~= old(self).face_order(),
            final(self).half_edge_order() =~= old(self).half_edge_order(),
    {
        broadcast use crate::handle::group_handle_keys;

        if self.half_edges.contains(handle.raw()) {
            let record = self.half_edges.at_mut(handle.raw());
            Some(&mut record.data)
        } else {
            None
        }
    }

    /// The payload of a half-edge of the graph.
    pub(crate) fn half_edge_payload(&self, handle: HalfEdgeHandle) -> (r: &D::HalfEdge)
        requires
            self.stored(),
            self@.has(handle),
        ensures
            *r == self.half_edge_data()[handle],
    {
        &self.half_edges.at(handle.raw()).data
    }

    /// The number of half-edges.
    pub fn half_edge_len(&self) -> (n: usize)
        ensures
            n == self.half_edge_count(),
    {
        self.half_edges.len()
    }

    /// The payload of an edge, or nothing if the handle names none.
    pub fn get_edge_data(&self, handle: EdgeHandle) -> (r: Option<&D::Edge>)
        requires
            self.wf(),
        ensures
            r == (if self@.has_edge(handle) {
                Some(&self.edge_data()[handle])
            } else {
                None
            }),
    {
        match self.edges.get(handle.raw()) {
            Some(record) => Some(&record.data),
            None => None,
        }
    }

    /// The payload of an edge, for writing, or nothing if the handle names
    /// none. The links of the graph stay as they are.
    pub fn get_edge_data_mut(&mut self, handle: EdgeHandle) -> (r: Option<&mut D::Edge>)
        requires
            old(self).wf(),
        ensures
            final(self)@ =~= old(self)@ && final(self).wf(),
            r is Some <==> old(self)@.has_edge(handle),
            match r {
                Some(data) => *data == old(self).edge_data()[handle] && final(self).edge_data()
                    =~= old(self).edge_data().insert(handle, *final(data)),
                None => final(self).edge_data() == old(self).edge_data(),
            },
            final(self).vertex_data() == old(self).vertex_data(),
            final(self).half_edge_data() == old(self).half_edge_data(),
            final(self).face_data() == old(self).face_data(),
            final(self).vertex_count() == old(self).vertex_count(),
            final(self).edge_count() == old(self).edge_count(),
            final(self).face_count() == old(self).face_count(),
            final(self).half_edge_count() == old(self).half_edge_count(),
            final(self).vertex_order() =~= old(self).vertex_order(),
            final(self).edge_order() =~= old(self).edge_order(),
            final(self).face_order() =~= old(self).face_order(),
            final(self).half_edge_order() =~= old(self).half_edge_order(),
    {
        broadcast use crate::handle::group_handle_keys;

        if self.edges.contains(handle.raw()) {
            let record = self.edges.at_mut(handle.raw());
            Some(&mut record.data)
        } else {
            None
        }
    }

    /// The payload of an edge of the graph.
    pub(crate) fn edge_payload(&self, handle: EdgeHandle) -> (r: &D::Edge)
        requires
            self.stored(),
            self@.has_edge(handle),
        ensures
            *r == self.edge_data()[handle],
    {
        &self.edges.at(handle.raw()).data
    }

    /// The number of edges.
    pub fn edge_len(&self) -> (n: usize)
        ensures
            n == self.edge_count(),
    {
        self.edges.len()
    }

    /// The payload of a face, or nothing if the handle names none.
    pub fn get_face_data(&self, handle: FaceHandle) -> (r: Option<&D::Face>)
        requires
            self.wf(),
        ensures
            r == (if self@.has_face(handle) {
                Some(&self.face_data()[handle])
            } else {
                None
            }),
    {
        match self.faces.get(handle.raw()) {
            Some(record) => Some(&record.data),
            None => None,
        }
    }

    /// The payload of a face, for writing, or nothing if the handle names
    /// none. The links of the graph stay as they are.
    pub fn get_face_data_mut(&mut self, handle: FaceHandle) -> (r: Option<&mut D::Face>)
        requires
            old(self).wf(),
        ensures
            final(self)@ =~= old(self)@ && final(self).wf(),
            r is Some <==> old(self)@.has_face(handle),
            match r {
                Some(data) => *data == old(self).face_data()[handle] && final(self).face_data()
                    =~= old(self).face_data().insert(handle, *final(data)),
                None => final(self).face_data() == old(self).face_data(),
            },
            final(self).vertex_data() == old(self).vertex_data(),
            final(self).half_edge_data() == old(self).half_edge_data(),
            final(self).edge_data() == old(self).edge_data(),
            final(self).vertex_count() == old(self).vertex_count(),
            final(self).edge_count() == old(self).edge_count(),
            final(self).face_count() == old(self).face_count(),
            final(self).half_edge_count() == old(self).half_edge_count(),
            final(self).vertex_order() =~= old(self).vertex_order(),
            final(self).edge_order() =~= old(self).edge_order(),
            final(self).face_order() =~= old(self).face_order(),
            final(self).half_edge_order() =~= old(self).half_edge_order(),
    {
        broadcast use crate::handle::group_handle_keys;

        if self.faces.contains(handle.raw()) {
            let record = self.faces.at_mut(handle.raw());
            Some(&mut record.data)
        } else {
            None
        }
    }

    /// The payload of a face of the graph.
    pub(crate) fn face_payload(&self, handle: FaceHandle) -> (r: &D::Face)
        requires
            self.stored(),
            self@.has_face(handle),
        ensures
            *r == self.face_data()[handle],
    {
        &self.faces.at(handle.raw()).data
    }

    /// The number of faces.
    pub fn face_len(&self) -> (n: usize)
        ensures
            n == self.face_count(),
    {
        self.faces.len()
    }


    /// The vertices of the graph in the order in which they were made.
    pub closed spec fn vertex_order(&self) -> Seq<VertexHandle> {
        Seq::new(
            self.vertices.entries().len(),
            |i: int| VertexHandle::from_key(self.vertices.entries()[i].key),
        )
    }

    /// The order of the vertices lists each of them once, and nothing else.
    pub proof fn lemma_vertex_order(&self)
        requires
            self.stored(),
        ensures
            self.vertex_order().no_duplicates(),
            self.vertex_order().len() == self.vertex_count(),
            forall|x: VertexHandle| self@.has_vertex(x) <==> self.vertex_order().contains(x),
    {
        broadcast use crate::handle::group_handle_keys;

        let order = self.vertex_order();
        let entries = self.vertices.entries();
        assert forall|i: int, j: int|
            0 <= i < order.len() && 0 <= j < order.len() && i != j implies order[i] != order[j] by {
            assert(order[i].key() == entries[i].key);
            assert(order[j].key() == entries[j].key);
            assert(self.vertices.keys().contains(entries[i].key));
            assert(self.vertices.keys().contains(entries[j].key));
        }
        assert forall|x: VertexHandle| self@.has_vertex(x) <==> order.contains(x) by {
            if self@.has_vertex(x) {
                assert(self.vertices.keys().contains(x.key()));
                let i = self.vertices.positions()[x.key()] as int;
                assert(order[i] == x);
            }
            if order.contains(x) {
                let i = choose|i: int| 0 <= i < order.len() && order[i] == x;
                assert(self.vertices.keys().contains(entries[i].key));
            }
        }
    }

    /// The handles of the vertices, in the order in which they were made.
    pub fn vertex_handles(&self) -> (r: Vec<VertexHandle>)
        requires
            self.wf(),
        ensures
            r@ == self.vertex_order(),
    {
        let n = self.vertices.len();
        let mut handles: Vec<VertexHandle> = Vec::new();
        let mut i: usize = 0;
        while i < n
            invariant
                self.stored(),
                n == self.vertices.spec_len(),
                0 <= i <= n,
                handles@.len() == i,
                forall|j: int| 0 <= j < i ==> #[trigger] handles@[j] == self.vertex_order()[j],
            decreases n - i,
        {
            let key = self.vertices.key_at(i);
            handles.push(VertexHandle::of_key(key));
            i = i + 1;
        }
        proof {
            assert(handles@ =~= self.vertex_order());
        }
        handles
    }

    /// The half-edges of the graph in the order in which they were made.
    pub closed spec fn half_edge_order(&self) -> Seq<HalfEdgeHandle> {
        Seq::new(
            self.half_edges.entries().len(),
            |i: int| HalfEdgeHandle::from_key(self.half_edges.entries()[i].key),
        )
    }

    /// The order of the half-edges lists each of them once, and nothing else.
    pub proof fn lemma_half_edge_order(&self)
        requires
            self.stored(),
        ensures
            self.half_edge_order().no_duplicates(),
            self.half_edge_order().len() == self.half_edge_count(),
            forall|x: HalfEdgeHandle| self@.has(x) <==> self.half_edge_order().contains(x),
    {
        broadcast use crate::handle::group_handle_keys;

        let order = self.half_edge_order();
        let entries = self.half_edges.entries();
        assert forall|i: int, j: int|
            0 <= i < order.len() && 0 <= j < order.len() && i != j implies order[i] != order[j] by {
            assert(order[i].key() == entries[i].key);
            assert(order[j].key() == entries[j].key);
            assert(self.half_edges.keys().contains(entries[i].key));
            assert(self.half_edges.keys().contains(entries[j].key));
        }
        assert forall|x: HalfEdgeHandle| self@.has(x) <==> order.contains(x) by {
            if self@.has(x) {
                assert(self.half_edges.keys().contains(x.key()));
                let i = self.half_edges.positions()[x.key()] as int;
                assert(order[i] == x);
            }
            if order.contains(x) {
                let i = choose|i: int| 0 <= i < order.len() && order[i] == x;
                assert(self.half_edges.keys().contains(entries[i].key));
            }
        }
    }

    /// The handles of the half-edges, in the order in which they were made.
    pub fn half_edge_handles(&self) -> (r: Vec<HalfEdgeHandle>)
        requires
            self.wf(),
        ensures
            r@ == self.half_edge_order(),
    {
        let n = self.half_edges.len();
        let mut handles: Vec<HalfEdgeHandle> = Vec::new();
        let mut i: usize = 0;
        while i < n
            invariant
                self.stored(),
                n == self.half_edges.spec_len(),
                0 <= i <= n,
                handles@.len() == i,
                forall|j: int| 0 <= j < i ==> #[trigger] handles@[j] == self.half_edge_order()[j],
            decreases n - i,
        {
            let key = self.half_edges.key_at(i);
            handles.push(HalfEdgeHandle::of_key(key));
            i = i + 1;
        }
        proof {
            assert(handles@ =~= self.half_edge_order());
        }
        handles
    }

    /// The edges of the graph in the order in which they were made.
    pub closed spec fn edge_order(&self) -> Seq<EdgeHandle> {
        Seq::new(
            self.edges.entries().len(),
            |i: int| EdgeHandle::from_key(self.edges.entries()[i].key),
        )
    }

    /// The order of the edges lists each of them once, and nothing else.
    pub proof fn lemma_edge_order(&self)
        requires
            self.stored(),
        ensures
            self.edge_order().no_duplicates(),
            self.edge_order().len() == self.edge_count(),
            forall|x: EdgeHandle| self@.has_edge(x) <==> self.edge_order().contains(x),
    {
        broadcast use crate::handle::group_handle_keys;

        let order = self.edge_order();
        let entries = self.edges.entries();
        assert forall|i: int, j: int|
            0 <= i < order.len() && 0 <= j < order.len() && i != j implies order[i] != order[j] by {
            assert(order[i].key() == entries[i].key);
            assert(order[j].key() == entries[j].key);
            assert(self.edges.keys().contains(entries[i].key));
            assert(self.edges.keys().contains(entries[j].key));
        }
        assert forall|x: EdgeHandle| self@.has_edge(x) <==> order.contains(x) by {
            if self@.has_edge(x) {
                assert(self.edges.keys().contains(x.key()));
                let i = self.edges.positions()[x.key()] as int;
                assert(order[i] == x);
            }
            if order.contains(x) {
                let i = choose|i: int| 0 <= i < order.len() && order[i] == x;
                assert(self.edges.keys().contains(entries[i].key));
            }
        }
    }

    /// The handles of the edges, in the order in which they were made.
    pub fn edge_handles(&self) -> (r: Vec<EdgeHandle>)
        requires
            self.wf(),
        ensures
            r@ == self.edge_order(),
    {
        let n = self.edges.len();
        let mut handles: Vec<EdgeHandle> = Vec::new();
        let mut i: usize = 0;
        while i < n
            invariant
                self.stored(),
                n == self.edges.spec_len(),
                0 <= i <= n,
                handles@.len() == i,
                forall|j: int| 0 <= j < i ==> #[trigger] handles@[j] == self.edge_order()[j],
            decreases n - i,
        {
            let key = self.edges.key_at(i);
            handles.push(EdgeHandle::of_key(key));
            i = i + 1;
        }
        proof {
            assert(handles@ =~= self.edge_order());
        }
        handles
    }

    /// The faces of the graph in the order in which they were made.
    pub closed spec fn face_order(&self) -> Seq<FaceHandle> {
        Seq::new(
            self.faces.entries().len(),
            |i: int| FaceHandle::from_key(self.faces.entries()[i].key),
        )
    }

    /// The order of the faces lists each of them once, and nothing else.
    pub proof fn lemma_face_order(&self)
        requires
            self.stored(),
        ensures
            self.face_order().no_duplicates(),
            self.face_order().len() == self.face_count(),
            forall|x: FaceHandle| self@.has_face(x) <==> self.face_order().contains(x),
    {
        broadcast use crate::handle::group_handle_keys;

        let order = self.face_order();
        let entries = self.faces.entries();
        assert forall|i: int, j: int|
            0 <= i < order.len() && 0 <= j < order.len() && i != j implies order[i] != order[j] by {
            assert(order[i].key() == entries[i].key);
            assert(order[j].key() == entries[j].key);
            assert(self.faces.keys().contains(entries[i].key));
            assert(self.faces.keys().contains(entries[j].key));
        }
        assert forall|x: FaceHandle| self@.has_face(x) <==> order.contains(x) by {
            if self@.has_face(x) {
                assert(self.faces.keys().contains(x.key()));
                let i = self.faces.positions()[x.key()] as int;
                assert(order[i] == x);
            }
            if order.contains(x) {
                let i = choose|i: int| 0 <= i < order.len() && order[i] == x;
                assert(self.faces.keys().contains(entries[i].key));
            }
        }
    }

    /// The handles of the faces, in the order in which they were made.
    pub fn face_handles(&self) -> (r: Vec<FaceHandle>)
        requires
            self.wf(),
        ensures
            r@ == self.face_order(),
    {
        let n = self.faces.len();
        let mut handles: Vec<FaceHandle> = Vec::new();
        let mut i: usize = 0;
        while i < n
            invariant
                self.stored(),
                n == self.faces.spec_len(),
                0 <= i <= n,
                handles@.len() == i,
                forall|j: int| 0 <= j < i ==> #[trigger] handles@[j] == self.face_order()[j],
            decreases n - i,
        {
            let key = self.faces.key_at(i);
            handles.push(FaceHandle::of_key(key));
            i = i + 1;
        }
        proof {
            assert(handles@ =~= self.face_order());
        }
        handles
    }

    /// A graph without entities.
    pub fn new() -> (g: Self)
        ensures
            g.wf(),
            g@ == Topology::empty(),
            g.vertex_count() == 0,
            g.edge_count() == 0,
            g.face_count() == 0,
            g.half_edge_count() == 0,
    {
        let g = HalfEdgeGraph {
            half_edges: Arena::new(),
            faces: Arena::new(),
            edges: Arena::new(),
            vertices: Arena::new(),
            rings: Ghost(Map::empty()),
            loops: Ghost(Map::empty()),
        };
        proof {
            assert(g@.vertices =~= Map::empty());
            assert(g@.edges =~= Map::empty());
            assert(g@.faces =~= Map::empty());
            assert(g@.half_edges =~= Map::empty());
            Topology::lemma_empty_wf();
        }
        g
    }
}

impl<D: Data> Default for HalfEdgeGraph<D> {
    /// A graph without entities.
    fn default() -> (g: Self)
        ensures
            g.wf(),
            g@ == Topology::empty(),
            g.vertex_count() == 0,
            g.edge_count() == 0,
            g.face_count() == 0,
            g.half_edge_count() == 0,
    {
        HalfEdgeGraph::new()
    }
}

} // verus!
