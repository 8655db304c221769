//! The traversals: the half-edges, vertices, edges and faces that lie
//! round a vertex, on the two sides of an edge, or along a face, handed
//! out one at a time.
//!
//! Each traversal walks a ring or a loop once round, from the
//! representative half-edge of the entity it starts from. What a traversal
//! will hand out is laid down when it is made: `remaining` lists it.

use crate::data::Data;
use crate::graph::HalfEdgeGraph;
use crate::handle::{EdgeHandle, FaceHandle, HalfEdgeHandle, VertexHandle};
use crate::topology::Topology;
use crate::traversal::{Keep, Step, Walk};
use crate::views::{EdgeFn, FaceFn, HalfEdgeFn, VertexFn};
use vstd::prelude::*;

verus! {

impl Topology {
    /// The pairs of the half-edges of `s`.
    pub open spec fn pairs_of(self, s: Seq<HalfEdgeHandle>) -> Seq<HalfEdgeHandle> {
        s.map_values(|h: HalfEdgeHandle| self.pair(h))
    }

    /// The half-edges of `s` themselves.
    pub open spec fn selves_of(self, s: Seq<HalfEdgeHandle>) -> Seq<HalfEdgeHandle> {
        s
    }

    /// The vertices that the half-edges of `s` point to.
    pub open spec fn targets_of(self, s: Seq<HalfEdgeHandle>) -> Seq<VertexHandle> {
        s.map_values(|h: HalfEdgeHandle| self.target(h))
    }

    /// The edges of the half-edges of `s`.
    pub open spec fn edges_of(self, s: Seq<HalfEdgeHandle>) -> Seq<EdgeHandle> {
        s.map_values(|h: HalfEdgeHandle| self.edge(h))
    }

    /// The faces on which the half-edges of `s` lie.
    pub open spec fn faces_of(self, s: Seq<HalfEdgeHandle>) -> Seq<FaceHandle> {
        s.map_values(|h: HalfEdgeHandle| self.face(h)->Some_0)
    }

    /// The faces on which the pairs of the half-edges of `s` lie.
    pub open spec fn pair_faces_of(self, s: Seq<HalfEdgeHandle>) -> Seq<FaceHandle> {
        s.map_values(|h: HalfEdgeHandle| self.face(self.pair(h))->Some_0)
    }

    /// The half-edges that leave `v`, in rotation order from the
    /// representative of `v`.
    pub open spec fn out_half_edges(self, v: VertexHandle) -> Seq<HalfEdgeHandle> {
        self.selves_of(self.filtered(Keep::All, self.rings[v]))
    }

    /// The half-edges that point to `v`: the pairs of those that leave it,
    /// in the same order.
    pub open spec fn in_half_edges(self, v: VertexHandle) -> Seq<HalfEdgeHandle> {
        self.selves_of(self.filtered(Keep::All, self.pairs_of(self.rings[v])))
    }

    /// The vertices that an edge joins to `v`, in rotation order.
    pub open spec fn vertex_vertices(self, v: VertexHandle) -> Seq<VertexHandle> {
        self.targets_of(self.filtered(Keep::All, self.rings[v]))
    }

    /// The edges at `v`, in rotation order.
    pub open spec fn vertex_edges(self, v: VertexHandle) -> Seq<EdgeHandle> {
        self.edges_of(self.filtered(Keep::All, self.rings[v]))
    }

    /// The faces round `v`, in rotation order: the face of each half-edge
    /// that leaves `v` and lies on one.
    pub open spec fn vertex_faces(self, v: VertexHandle) -> Seq<FaceHandle> {
        self.faces_of(self.filtered(Keep::Faced, self.rings[v]))
    }

    /// The two half-edges of `e`, the representative first.
    pub open spec fn sides(self, e: EdgeHandle) -> Seq<HalfEdgeHandle> {
        seq![self.edges[e], self.pair(self.edges[e])]
    }

    /// The faces on the two sides of `e`: none, one or two.
    pub open spec fn edge_faces(self, e: EdgeHandle) -> Seq<FaceHandle> {
        self.faces_of(self.filtered(Keep::Faced, self.sides(e)))
    }

    /// The vertices along the boundary of `f`: the targets of the
    /// half-edges of its loop, in loop order.
    pub open spec fn face_vertices(self, f: FaceHandle) -> Seq<VertexHandle> {
        self.targets_of(self.filtered(Keep::All, self.loops[f]))
    }

    /// The edges along the boundary of `f`, in loop order.
    pub open spec fn face_edges(self, f: FaceHandle) -> Seq<EdgeHandle> {
        self.edges_of(self.filtered(Keep::All, self.loops[f]))
    }

    /// The faces that share an edge with `f`, in loop order: the face of
    /// the pair of each half-edge of the loop whose pair lies on one.
    pub open spec fn face_faces(self, f: FaceHandle) -> Seq<FaceHandle> {
        self.pair_faces_of(self.filtered(Keep::PairFaced, self.loops[f]))
    }

    /// A half-edge that is handed out from the ring of a vertex is a
    /// half-edge of the graph, and so is its pair.
    pub proof fn lemma_ring_kept(self, keep: Keep, v: VertexHandle, j: int)
        requires
            self.wf(),
            self.has_vertex(v),
            0 <= j < self.filtered(keep, self.rings[v]).len(),
        ensures
            self.has(self.filtered(keep, self.rings[v])[j]),
            self.kept(keep, self.filtered(keep, self.rings[v])[j]),
            self.half_edge_ok(self.filtered(keep, self.rings[v])[j]),
    {
        self.lemma_vertex(v);
        let r = self.rings[v];
        self.lemma_filtered_kept(keep, r);
        let h = self.filtered(keep, r)[j];
        let k = choose|k: int| 0 <= k < r.len() && r[k] == h;
        assert(self.has(r[k]));
        self.lemma_half_edge(h);
    }

    /// A half-edge that is handed out from the loop of a face is a
    /// half-edge of the graph.
    pub proof fn lemma_loop_kept(self, keep: Keep, f: FaceHandle, j: int)
        requires
            self.wf(),
            self.has_face(f),
            0 <= j < self.filtered(keep, self.loops[f]).len(),
        ensures
            self.has(self.filtered(keep, self.loops[f])[j]),
            self.kept(keep, self.filtered(keep, self.loops[f])[j]),
            self.half_edge_ok(self.filtered(keep, self.loops[f])[j]),
    {
        self.lemma_face(f);
        let l = self.loops[f];
        self.lemma_filtered_kept(keep, l);
        let h = self.filtered(keep, l)[j];
        let k = choose|k: int| 0 <= k < l.len() && l[k] == h;
        assert(self.has(l[k]));
        self.lemma_half_edge(h);
    }

    /// The half-edges that leave a vertex are half-edges of the graph.
    pub proof fn lemma_out_half_edges(self, v: VertexHandle)
        requires
            self.wf(),
            self.has_vertex(v),
        ensures
            forall|j: int|
                0 <= j < self.out_half_edges(v).len() ==> self.has(
                    #[trigger] self.out_half_edges(v)[j],
                ),
    {
        assert forall|j: int| 0 <= j < self.out_half_edges(v).len() implies self.has(
            #[trigger] self.out_half_edges(v)[j],
        ) by {
            self.lemma_ring_kept(Keep::All, v, j);
        }
    }

    /// The half-edges that point to a vertex are half-edges of the graph.
    pub proof fn lemma_in_half_edges(self, v: VertexHandle)
        requires
            self.wf(),
            self.has_vertex(v),
        ensures
            forall|j: int|
                0 <= j < self.in_half_edges(v).len() ==> self.has(
                    #[trigger] self.in_half_edges(v)[j],
                ),
    {
        self.lemma_vertex(v);
        let r = self.rings[v];
        let p = self.pairs_of(r);
        self.lemma_filtered_kept(Keep::All, p);
        assert forall|j: int| 0 <= j < self.in_half_edges(v).len() implies self.has(
            #[trigger] self.in_half_edges(v)[j],
        ) by {
            let h = self.in_half_edges(v)[j];
            let k = choose|k: int| 0 <= k < p.len() && p[k] == h;
            assert(self.has(r[k]));
            self.lemma_half_edge(r[k]);
        }
    }

    /// The vertices round a vertex are vertices of the graph.
    pub proof fn lemma_vertex_vertices(self, v: VertexHandle)
        requires
            self.wf(),
            self.has_vertex(v),
        ensures
            forall|j: int|
                0 <= j < self.vertex_vertices(v).len() ==> self.has_vertex(
                    #[trigger] self.vertex_vertices(v)[j],
                ),
    {
        assert forall|j: int| 0 <= j < self.vertex_vertices(v).len() implies self.has_vertex(
            #[trigger] self.vertex_vertices(v)[j],
        ) by {
            self.lemma_ring_kept(Keep::All, v, j);
        }
    }

    /// The edges at a vertex are edges of the graph.
    pub proof fn lemma_vertex_edges(self, v: VertexHandle)
        requires
            self.wf(),
            self.has_vertex(v),
        ensures
            forall|j: int|
                0 <= j < self.vertex_edges(v).len() ==> self.has_edge(
                    #[trigger] self.vertex_edges(v)[j],
                ),
    {
        assert forall|j: int| 0 <= j < self.vertex_edges(v).len() implies self.has_edge(
            #[trigger] self.vertex_edges(v)[j],
        ) by {
            self.lemma_ring_kept(Keep::All, v, j);
        }
    }

    /// The faces round a vertex are faces of the graph.
    pub proof fn lemma_vertex_faces(self, v: VertexHandle)
        requires
            self.wf(),
            self.has_vertex(v),
        ensures
            forall|j: int|
                0 <= j < self.vertex_faces(v).len() ==> self.has_face(
                    #[trigger] self.vertex_faces(v)[j],
                ),
    {
        assert forall|j: int| 0 <= j < self.vertex_faces(v).len() implies self.has_face(
            #[trigger] self.vertex_faces(v)[j],
        ) by {
            self.lemma_ring_kept(Keep::Faced, v, j);
        }
    }

    /// The faces on the two sides of an edge are faces of the graph.
    pub proof fn lemma_edge_faces(self, e: EdgeHandle)
        requires
            self.wf(),
            self.has_edge(e),
        ensures
            forall|j: int|
                0 <= j < self.edge_faces(e).len() ==> self.has_face(
                    #[trigger] self.edge_faces(e)[j],
                ),
    {
        self.lemma_edge(e);
        self.lemma_half_edge(self.edges[e]);
        let s = self.sides(e);
        self.lemma_filtered_kept(Keep::Faced, s);
        assert forall|j: int| 0 <= j < self.edge_faces(e).len() implies self.has_face(
            #[trigger] self.edge_faces(e)[j],
        ) by {
            let h = self.filtered(Keep::Faced, s)[j];
            let k = choose|k: int| 0 <= k < s.len() && s[k] == h;
            self.lemma_half_edge(s[k]);
        }
    }

    /// The vertices along a face are vertices of the graph.
    pub proof fn lemma_face_vertices(self, f: FaceHandle)
        requires
            self.wf(),
            self.has_face(f),
        ensures
            forall|j: int|
                0 <= j < self.face_vertices(f).len() ==> self.has_vertex(
                    #[trigger] self.face_vertices(f)[j],
                ),
    {
        assert forall|j: int| 0 <= j < self.face_vertices(f).len() implies self.has_vertex(
            #[trigger] self.face_vertices(f)[j],
        ) by {
            self.lemma_loop_kept(Keep::All, f, j);
        }
    }

    /// The edges along a face are edges of the graph.
    pub proof fn lemma_face_edges(self, f: FaceHandle)
        requires
            self.wf(),
            self.has_face(f),
        ensures
            forall|j: int|
                0 <= j < self.face_edges(f).len() ==> self.has_edge(
                    #[trigger] self.face_edges(f)[j],
                ),
    {
        assert forall|j: int| 0 <= j < self.face_edges(f).len() implies self.has_edge(
            #[trigger] self.face_edges(f)[j],
        ) by {
            self.lemma_loop_kept(Keep::All, f, j);
        }
    }

    /// The faces next to a face are faces of the graph.
    pub proof fn lemma_face_faces(self, f: FaceHandle)
        requires
            self.wf(),
            self.has_face(f),
        ensures
            forall|j: int|
                0 <= j < self.face_faces(f).len() ==> self.has_face(
                    #[trigger] self.face_faces(f)[j],
                ),
    {
        assert forall|j: int| 0 <= j < self.face_faces(f).len() implies self.has_face(
            #[trigger] self.face_faces(f)[j],
        ) by {
            self.lemma_loop_kept(Keep::PairFaced, f, j);
            let h = self.filtered(Keep::PairFaced, self.loops[f])[j];
            self.lemma_half_edge(self.pair(h));
        }
    }

    /// The ring of a vertex is a closed path for walks round the vertex
    /// by its outgoing half-edges.
    pub proof fn lemma_ring_path(self, v: VertexHandle)
        requires
            self.wf(),
            self.has_vertex(v),
            self.vertices[v] is Some,
        ensures
            self.is_path(Step::PairNext, self.rings[v]),
            self.rings[v][0] == self.vertices[v]->Some_0,
    {
        self.lemma_vertex(v);
        let r = self.rings[v];
        assert forall|i: int| 0 <= i < r.len() implies #[trigger] self.path_step(
            Step::PairNext,
            r,
            i,
        ) by {
            assert(self.ring_step(r, i));
        }
        assert forall|i: int| 0 <= i < r.len() implies self.has(#[trigger] r[i]) by {}
    }

    /// The pairs of the ring of a vertex are a closed path for walks round
    /// the vertex by its incoming half-edges.
    pub proof fn lemma_in_ring_path(self, v: VertexHandle)
        requires
            self.wf(),
            self.has_vertex(v),
            self.vertices[v] is Some,
        ensures
            self.is_path(Step::NextPair, self.pairs_of(self.rings[v])),
            self.pairs_of(self.rings[v])[0] == self.pair(self.vertices[v]->Some_0),
    {
        self.lemma_vertex(v);
        let r = self.rings[v];
        let p = self.pairs_of(r);
        assert forall|i: int| 0 <= i < p.len() implies self.has(#[trigger] p[i]) by {
            assert(self.has(r[i]));
            self.lemma_half_edge(r[i]);
        }
        assert forall|i: int| 0 <= i < p.len() implies #[trigger] self.path_step(
            Step::NextPair,
            p,
            i,
        ) by {
            assert(self.has(r[i]));
            self.lemma_half_edge(r[i]);
            assert(self.ring_step(r, i));
        }
        assert forall|i: int, j: int| 0 <= i < p.len() && 0 <= j < p.len() && i != j implies p[i]
            != p[j] by {
            assert(self.has(r[i]) && self.has(r[j]));
            self.lemma_half_edge(r[i]);
            self.lemma_half_edge(r[j]);
        }
    }

    /// The two half-edges of an edge are a closed path for walks from one
    /// side of the edge to the other.
    pub proof fn lemma_sides_path(self, e: EdgeHandle)
        requires
            self.wf(),
            self.has_edge(e),
        ensures
            self.is_path(Step::Pair, self.sides(e)),
            self.sides(e)[0] == self.edges[e],
    {
        self.lemma_edge(e);
        let h = self.edges[e];
        self.lemma_half_edge(h);
        let s = self.sides(e);
        assert forall|i: int| 0 <= i < s.len() implies #[trigger] self.path_step(Step::Pair, s, i) by {}
        assert forall|i: int| 0 <= i < s.len() implies self.has(#[trigger] s[i]) by {}
    }

    /// The loop of a face is a closed path for walks along the face.
    pub proof fn lemma_loop_path(self, f: FaceHandle)
        requires
            self.wf(),
            self.has_face(f),
        ensures
            self.is_path(Step::Next, self.loops[f]),
            self.loops[f][0] == self.faces[f],
    {
        self.lemma_face(f);
        let l = self.loops[f];
        assert forall|i: int| 0 <= i < l.len() implies #[trigger] self.path_step(Step::Next, l, i) by {
            assert(self.loop_step(l, i));
        }
        assert forall|i: int| 0 <= i < l.len() implies self.has(#[trigger] l[i]) by {}
    }
}

/// The half-edges that leave a vertex.
pub struct VertexOutHalfEdges<'g, D: Data> {
    walk: Walk<'g, D>,
    graph: &'g HalfEdgeGraph<D>,
}

impl<'g, D: Data> VertexOutHalfEdges<'g, D> {
    /// The graph that is traversed.
    pub closed spec fn graph(&self) -> HalfEdgeGraph<D> {
        *self.graph
    }

    /// What the traversal has yet to hand out, in its order.
    pub closed spec fn remaining(&self) -> Seq<HalfEdgeHandle> {
        self.graph@.selves_of(self.walk.remaining())
    }

    /// The traversal is valid.
    pub closed spec fn wf(&self) -> bool {
        &&& self.walk.wf()
        &&& self.walk.graph() == *self.graph
        &&& self.graph.wf()
        &&& forall|j: int|
            0 <= j < self.walk.remaining().len() ==> self.graph@.has(
                #[trigger] self.walk.remaining()[j],
            ) && self.graph@.kept(Keep::All, self.walk.remaining()[j])
    }

    fn walk_graph(&self) -> (g: &'g HalfEdgeGraph<D>)
        ensures
            *g == self.graph(),
    {
        self.graph
    }

    /// The traversal from the entity that `view` shows.
    pub fn new(view: VertexFn<'g, D>) -> (r: Self)
        requires
            view.wf(),
        ensures
            r.wf(),
            r.graph() == view.graph(),
            r.remaining() == view.graph()@.out_half_edges(view.id()),
    {
        let graph = view.graph_ref();
        let handle = view.handle();
        let init = graph.hedge_of_vertex(handle);
        let ghost path = graph@.rings[handle];
        proof {
            if graph@.vertices[handle] is Some {
                graph@.lemma_ring_path(handle);
            }
            graph@.lemma_filtered_kept(Keep::All, path);
            if init is None {
                graph@.lemma_vertex(handle);
                assert(graph@.rings[handle] =~= Seq::empty());
                assert(path =~= Seq::empty());
            }
        }
        let walk = Walk::start(graph, init, Step::PairNext, Keep::All, Ghost(path));
        proof {
            if init is Some {
                assert forall|j: int| 0 <= j < walk.remaining().len() implies graph@.has(
                    #[trigger] walk.remaining()[j],
                ) by {
                    let h = walk.remaining()[j];
                    let k = choose|k: int| 0 <= k < path.len() && path[k] == h;
                    assert(graph@.has(path[k]));
                }
            }
        }
        VertexOutHalfEdges { walk, graph }
    }

    /// Hands out the next entity of the traversal, or nothing when the
    /// traversal has come to its end.
    pub fn next(&mut self) -> (r: Option<HalfEdgeFn<'g, D>>)
        requires
            old(self).wf(),
        ensures
            final(self).wf(),
            final(self).graph() == old(self).graph(),
            match r {
                Some(view) => old(self).remaining().len() > 0 && view.id() == old(
                    self,
                ).remaining()[0] && view.wf() && view.graph() == old(self).graph()
                    && final(self).remaining() == old(self).remaining().skip(1),
                None => old(self).remaining().len() == 0 && final(self).remaining().len() == 0,
            },
    {
        let ghost before = self.walk.remaining();
        match self.walk.next() {
            Some(h) => {
                proof {
                    assert(self.graph@.has(before[0]));
                    assert(self.graph@.kept(Keep::All, before[0]));
                    self.graph@.lemma_half_edge(h);
                    assert(self.graph@.selves_of(before.skip(1)) =~= self.graph@.selves_of(
                        before,
                    ).skip(1));
                    assert forall|j: int| 0 <= j < before.skip(1).len() implies self.graph@.has(
                        #[trigger] before.skip(1)[j],
                    ) && self.graph@.kept(Keep::All, before.skip(1)[j]) by {
                        assert(before.skip(1)[j] == before[j + 1]);
                    }
                }
                
                Some(HalfEdgeFn::new(self.walk_graph(), h))
            },
            None => None,
        }
    }

    /// The handles of everything that the traversal has yet to hand out,
    /// in its order.
    pub fn to_handles(self) -> (r: Vec<HalfEdgeHandle>)
        requires
            self.wf(),
        ensures
            r@ == self.remaining(),
    {
        let ghost all = self.remaining();
        let mut rest = self;
        let mut done: Vec<HalfEdgeHandle> = Vec::new();
        loop
            invariant
                rest.wf(),
                all == self.remaining(),
                done@.len() + rest.remaining().len() == all.len(),
                rest.remaining() == all.skip(done@.len() as int),
                forall|j: int| 0 <= j < done@.len() ==> #[trigger] done@[j] == all[j],
            decreases rest.remaining().len(),
        {
            let ghost before = rest.remaining();
            match rest.next() {
                Some(view) => {
                    proof {
                        assert(before[0] == all[done@.len() as int]);
                        assert(before.skip(1) =~= all.skip(done@.len() as int + 1));
                    }
                    done.push(view.handle());
                },
                None => {
                    proof {
                        assert(done@ =~= all);
                    }
                    return done;
                },
            }
        }
    }

    /// Everything that the traversal has yet to hand out, in its order.
    pub fn to_vec(self) -> (r: Vec<HalfEdgeFn<'g, D>>)
        requires
            self.wf(),
        ensures
            r@.len() == self.remaining().len(),
            forall|j: int|
                0 <= j < r@.len() ==> (#[trigger] r@[j]).id() == self.remaining()[j] && r@[j].wf()
                    && r@[j].graph() == self.graph(),
    {
        let ghost all = self.remaining();
        let mut rest = self;
        let mut done: Vec<HalfEdgeFn<'g, D>> = Vec::new();
        loop
            invariant
                rest.wf(),
                rest.graph() == self.graph(),
                all == self.remaining(),
                done@.len() + rest.remaining().len() == all.len(),
                rest.remaining() == all.skip(done@.len() as int),
                forall|j: int|
                    0 <= j < done@.len() ==> (#[trigger] done@[j]).id() == all[j] && done@[j].wf()
                        && done@[j].graph() == self.graph(),
            decreases rest.remaining().len(),
        {
            let ghost before = rest.remaining();
            match rest.next() {
                Some(view) => {
                    proof {
                        assert(before[0] == all[done@.len() as int]);
                        assert(before.skip(1) =~= all.skip(done@.len() as int + 1));
                    }
                    done.push(view);
                },
                None => {
                    return done;
                },
            }
        }
    }
}

/// The half-edges that point to a vertex.
pub struct VertexInHalfEdges<'g, D: Data> {
    walk: Walk<'g, D>,
    graph: &'g HalfEdgeGraph<D>,
}

impl<'g, D: Data> VertexInHalfEdges<'g, D> {
    /// The graph that is traversed.
    pub closed spec fn graph(&self) -> HalfEdgeGraph<D> {
        *self.graph
    }

    /// What the traversal has yet to hand out, in its order.
    pub closed spec fn remaining(&self) -> Seq<HalfEdgeHandle> {
        self.graph@.selves_of(self.walk.remaining())
    }

    /// The traversal is valid.
    pub closed spec fn wf(&self) -> bool {
        &&& self.walk.wf()
        &&& self.walk.graph() == *self.graph
        &&& self.graph.wf()
        &&& forall|j: int|
            0 <= j < self.walk.remaining().len() ==> self.graph@.has(
                #[trigger] self.walk.remaining()[j],
            ) && self.graph@.kept(Keep::All, self.walk.remaining()[j])
    }

    fn walk_graph(&self) -> (g: &'g HalfEdgeGraph<D>)
        ensures
            *g == self.graph(),
    {
        self.graph
    }

    /// The traversal from the entity that `view` shows.
    pub fn new(view: VertexFn<'g, D>) -> (r: Self)
        requires
            view.wf(),
        ensures
            r.wf(),
            r.graph() == view.graph(),
            r.remaining() == view.graph()@.in_half_edges(view.id()),
    {
        let graph = view.graph_ref();
        let handle = view.handle();
        let init = match graph.hedge_of_vertex(handle) {
            Some(h) => {
                proof {
                    graph@.lemma_ring_from_representative_opt(handle);
                }
                Some(graph.pair_of(h))
            },
            None => None,
        };
        let ghost path = graph@.pairs_of(graph@.rings[handle]);
        proof {
            if graph@.vertices[handle] is Some {
                graph@.lemma_in_ring_path(handle);
            }
            graph@.lemma_filtered_kept(Keep::All, path);
            if init is None {
                graph@.lemma_vertex(handle);
                assert(graph@.rings[handle] =~= Seq::empty());
                assert(path =~= Seq::empty());
            }
        }
        let walk = Walk::start(graph, init, Step::NextPair, Keep::All, Ghost(path));
        proof {
            if init is Some {
                assert forall|j: int| 0 <= j < walk.remaining().len() implies graph@.has(
                    #[trigger] walk.remaining()[j],
                ) by {
                    let h = walk.remaining()[j];
                    let k = choose|k: int| 0 <= k < path.len() && path[k] == h;
                    assert(graph@.has(path[k]));
                }
            }
        }
        VertexInHalfEdges { walk, graph }
    }

    /// Hands out the next entity of the traversal, or nothing when the
    /// traversal has come to its end.
    pub fn next(&mut self) -> (r: Option<HalfEdgeFn<'g, D>>)
        requires
            old(self).wf(),
        ensures
            final(self).wf(),
            final(self).graph() == old(self).graph(),
            match r {
                Some(view) => old(self).remaining().len() > 0 && view.id() == old(
                    self,
                ).remaining()[0] && view.wf() && view.graph() == old(self).graph()
                    && final(self).remaining() == old(self).remaining().skip(1),
                None => old(self).remaining().len() == 0 && final(self).remaining().len() == 0,
            },
    {
        let ghost before = self.walk.remaining();
        match self.walk.next() {
            Some(h) => {
                proof {
                    assert(self.graph@.has(before[0]));
                    assert(self.graph@.kept(Keep::All, before[0]));
                    self.graph@.lemma_half_edge(h);
                    assert(self.graph@.selves_of(before.skip(1)) =~= self.graph@.selves_of(
                        before,
                    ).skip(1));
                    assert forall|j: int| 0 <= j < before.skip(1).len() implies self.graph@.has(
                        #[trigger] before.skip(1)[j],
                    ) && self.graph@.kept(Keep::All, before.skip(1)[j]) by {
                        assert(before.skip(1)[j] == before[j + 1]);
                    }
                }
                
                Some(HalfEdgeFn::new(self.walk_graph(), h))
            },
            None => None,
        }
    }

    /// The handles of everything that the traversal has yet to hand out,
    /// in its order.
    pub fn to_handles(self) -> (r: Vec<HalfEdgeHandle>)
        requires
            self.wf(),
        ensures
            r@ == self.remaining(),
    {
        let ghost all = self.remaining();
        let mut rest = self;
        let mut done: Vec<HalfEdgeHandle> = Vec::new();
        loop
            invariant
                rest.wf(),
                all == self.remaining(),
                done@.len() + rest.remaining().len() == all.len(),
                rest.remaining() == all.skip(done@.len() as int),
                forall|j: int| 0 <= j < done@.len() ==> #[trigger] done@[j] == all[j],
            decreases rest.remaining().len(),
        {
            let ghost before = rest.remaining();
            match rest.next() {
                Some(view) => {
                    proof {
                        assert(before[0] == all[done@.len() as int]);
                        assert(before.skip(1) =~= all.skip(done@.len() as int + 1));
                    }
                    done.push(view.handle());
                },
                None => {
                    proof {
                        assert(done@ =~= all);
                    }
                    return done;
                },
            }
        }
    }

    /// Everything that the traversal has yet to hand out, in its order.
    pub fn to_vec(self) -> (r: Vec<HalfEdgeFn<'g, D>>)
        requires
            self.wf(),
        ensures
            r@.len() == self.remaining().len(),
            forall|j: int|
                0 <= j < r@.len() ==> (#[trigger] r@[j]).id() == self.remaining()[j] && r@[j].wf()
                    && r@[j].graph() == self.graph(),
    {
        let ghost all = self.remaining();
        let mut rest = self;
        let mut done: Vec<HalfEdgeFn<'g, D>> = Vec::new();
        loop
            invariant
                rest.wf(),
                rest.graph() == self.graph(),
                all == self.remaining(),
                done@.len() + rest.remaining().len() == all.len(),
                rest.remaining() == all.skip(done@.len() as int),
                forall|j: int|
                    0 <= j < done@.len() ==> (#[trigger] done@[j]).id() == all[j] && done@[j].wf()
                        && done@[j].graph() == self.graph(),
            decreases rest.remaining().len(),
        {
            let ghost before = rest.remaining();
            match rest.next() {
                Some(view) => {
                    proof {
                        assert(before[0] == all[done@.len() as int]);
                        assert(before.skip(1) =~= all.skip(done@.len() as int + 1));
                    }
                    done.push(view);
                },
                None => {
                    return done;
                },
            }
        }
    }
}

/// The vertices that an edge joins to a vertex.
pub struct VertexVertex<'g, D: Data> {
    walk: Walk<'g, D>,
    graph: &'g HalfEdgeGraph<D>,
}

impl<'g, D: Data> VertexVertex<'g, D> {
    /// The graph that is traversed.
    pub closed spec fn graph(&self) -> HalfEdgeGraph<D> {
        *self.graph
    }

    /// What the traversal has yet to hand out, in its order.
    pub closed spec fn remaining(&self) -> Seq<VertexHandle> {
        self.graph@.targets_of(self.walk.remaining())
    }

    /// The traversal is valid.
    pub closed spec fn wf(&self) -> bool {
        &&& self.walk.wf()
        &&& self.walk.graph() == *self.graph
        &&& self.graph.wf()
        &&& forall|j: int|
            0 <= j < self.walk.remaining().len() ==> self.graph@.has(
                #[trigger] self.walk.remaining()[j],
            ) && self.graph@.kept(Keep::All, self.walk.remaining()[j])
    }

    fn walk_graph(&self) -> (g: &'g HalfEdgeGraph<D>)
        ensures
            *g == self.graph(),
    {
        self.graph
    }

    /// The traversal from the entity that `view` shows.
    pub fn new(view: VertexFn<'g, D>) -> (r: Self)
        requires
            view.wf(),
        ensures
            r.wf(),
            r.graph() == view.graph(),
            r.remaining() == view.graph()@.vertex_vertices(view.id()),
    {
        let graph = view.graph_ref();
        let handle = view.handle();
        let init = graph.hedge_of_vertex(handle);
        let ghost path = graph@.rings[handle];
        proof {
            if graph@.vertices[handle] is Some {
                graph@.lemma_ring_path(handle);
            }
            graph@.lemma_filtered_kept(Keep::All, path);
            if init is None {
                graph@.lemma_vertex(handle);
                assert(graph@.rings[handle] =~= Seq::empty());
                assert(path =~= Seq::empty());
            }
        }
        let walk = Walk::start(graph, init, Step::PairNext, Keep::All, Ghost(path));
        proof {
            if init is Some {
                assert forall|j: int| 0 <= j < walk.remaining().len() implies graph@.has(
                    #[trigger] walk.remaining()[j],
                ) by {
                    let h = walk.remaining()[j];
                    let k = choose|k: int| 0 <= k < path.len() && path[k] == h;
                    assert(graph@.has(path[k]));
                }
            }
        }
        VertexVertex { walk, graph }
    }

    /// Hands out the next entity of the traversal, or nothing when the
    /// traversal has come to its end.
    pub fn next(&mut self) -> (r: Option<VertexFn<'g, D>>)
        requires
            old(self).wf(),
        ensures
            final(self).wf(),
            final(self).graph() == old(self).graph(),
            match r {
                Some(view) => old(self).remaining().len() > 0 && view.id() == old(
                    self,
                ).remaining()[0] && view.wf() && view.graph() == old(self).graph()
                    && final(self).remaining() == old(self).remaining().skip(1),
                None => old(self).remaining().len() == 0 && final(self).remaining().len() == 0,
            },
    {
        let ghost before = self.walk.remaining();
        match self.walk.next() {
            Some(h) => {
                proof {
                    assert(self.graph@.has(before[0]));
                    assert(self.graph@.kept(Keep::All, before[0]));
                    self.graph@.lemma_half_edge(h);
                    assert(self.graph@.targets_of(before.skip(1)) =~= self.graph@.targets_of(
                        before,
                    ).skip(1));
                    assert forall|j: int| 0 <= j < before.skip(1).len() implies self.graph@.has(
                        #[trigger] before.skip(1)[j],
                    ) && self.graph@.kept(Keep::All, before.skip(1)[j]) by {
                        assert(before.skip(1)[j] == before[j + 1]);
                    }
                }
                let out = self.walk_graph().target_of(h);
                Some(VertexFn::new(self.walk_graph(), out))
            },
            None => None,
        }
    }

    /// The handles of everything that the traversal has yet to hand out,
    /// in its order.
    pub fn to_handles(self) -> (r: Vec<VertexHandle>)
        requires
            self.wf(),
        ensures
            r@ == self.remaining(),
    {
        let ghost all = self.remaining();
        let mut rest = self;
        let mut done: Vec<VertexHandle> = Vec::new();
        loop
            invariant
                rest.wf(),
                all == self.remaining(),
                done@.len() + rest.remaining().len() == all.len(),
                rest.remaining() == all.skip(done@.len() as int),
                forall|j: int| 0 <= j < done@.len() ==> #[trigger] done@[j] == all[j],
            decreases rest.remaining().len(),
        {
            let ghost before = rest.remaining();
            match rest.next() {
                Some(view) => {
                    proof {
                        assert(before[0] == all[done@.len() as int]);
                        assert(before.skip(1) =~= all.skip(done@.len() as int + 1));
                    }
                    done.push(view.handle());
                },
                None => {
                    proof {
                        assert(done@ =~= all);
                    }
                    return done;
                },
            }
        }
    }

    /// Everything that the traversal has yet to hand out, in its order.
    pub fn to_vec(self) -> (r: Vec<VertexFn<'g, D>>)
        requires
            self.wf(),
        ensures
            r@.len() == self.remaining().len(),
            forall|j: int|
                0 <= j < r@.len() ==> (#[trigger] r@[j]).id() == self.remaining()[j] && r@[j].wf()
                    && r@[j].graph() == self.graph(),
    {
        let ghost all = self.remaining();
        let mut rest = self;
        let mut done: Vec<VertexFn<'g, D>> = Vec::new();
        loop
            invariant
                rest.wf(),
                rest.graph() == self.graph(),
                all == self.remaining(),
                done@.len() + rest.remaining().len() == all.len(),
                rest.remaining() == all.skip(done@.len() as int),
                forall|j: int|
                    0 <= j < done@.len() ==> (#[trigger] done@[j]).id() == all[j] && done@[j].wf()
                        && done@[j].graph() == self.graph(),
            decreases rest.remaining().len(),
        {
            let ghost before = rest.remaining();
            match rest.next() {
                Some(view) => {
                    proof {
                        assert(before[0] == all[done@.len() as int]);
                        assert(before.skip(1) =~= all.skip(done@.len() as int + 1));
                    }
                    done.push(view);
                },
                None => {
                    return done;
                },
            }
        }
    }
}

/// The edges at a vertex.
pub struct VertexEdges<'g, D: Data> {
    walk: Walk<'g, D>,
    graph: &'g HalfEdgeGraph<D>,
}

impl<'g, D: Data> VertexEdges<'g, D> {
    /// The graph that is traversed.
    pub closed spec fn graph(&self) -> HalfEdgeGraph<D> {
        *self.graph
    }

    /// What the traversal has yet to hand out, in its order.
    pub closed spec fn remaining(&self) -> Seq<EdgeHandle> {
        self.graph@.edges_of(self.walk.remaining())
    }

    /// The traversal is valid.
    pub closed spec fn wf(&self) -> bool {
        &&& self.walk.wf()
        &&& self.walk.graph() == *self.graph
        &&& self.graph.wf()
        &&& forall|j: int|
            0 <= j < self.walk.remaining().len() ==> self.graph@.has(
                #[trigger] self.walk.remaining()[j],
            ) && self.graph@.kept(Keep::All, self.walk.remaining()[j])
    }

    fn walk_graph(&self) -> (g: &'g HalfEdgeGraph<D>)
        ensures
            *g == self.graph(),
    {
        self.graph
    }

    /// The traversal from the entity that `view` shows.
    pub fn new(view: VertexFn<'g, D>) -> (r: Self)
        requires
            view.wf(),
        ensures
            r.wf(),
            r.graph() == view.graph(),
            r.remaining() == view.graph()@.vertex_edges(view.id()),
    {
        let graph = view.graph_ref();
        let handle = view.handle();
        let init = graph.hedge_of_vertex(handle);
        let ghost path = graph@.rings[handle];
        proof {
            if graph@.vertices[handle] is Some {
                graph@.lemma_ring_path(handle);
            }
            graph@.lemma_filtered_kept(Keep::All, path);
            if init is None {
                graph@.lemma_vertex(handle);
                assert(graph@.rings[handle] =~= Seq::empty());
                assert(path =~= Seq::empty());
            }
        }
        let walk = Walk::start(graph, init, Step::PairNext, Keep::All, Ghost(path));
        proof {
            if init is Some {
                assert forall|j: int| 0 <= j < walk.remaining().len() implies graph@.has(
                    #[trigger] walk.remaining()[j],
                ) by {
                    let h = walk.remaining()[j];
                    let k = choose|k: int| 0 <= k < path.len() && path[k] == h;
                    assert(graph@.has(path[k]));
                }
            }
        }
        VertexEdges { walk, graph }
    }

    /// Hands out the next entity of the traversal, or nothing when the
    /// traversal has come to its end.
    pub fn next(&mut self) -> (r: Option<EdgeFn<'g, D>>)
        requires
            old(self).wf(),
        ensures
            final(self).wf(),
            final(self).graph() == old(self).graph(),
            match r {
                Some(view) => old(self).remaining().len() > 0 && view.id() == old(
                    self,
                ).remaining()[0] && view.wf() && view.graph() == old(self).graph()
                    && final(self).remaining() == old(self).remaining().skip(1),
                None => old(self).remaining().len() == 0 && final(self).remaining().len() == 0,
            },
    {
        let ghost before = self.walk.remaining();
        match self.walk.next() {
            Some(h) => {
                proof {
                    assert(self.graph@.has(before[0]));
                    assert(self.graph@.kept(Keep::All, before[0]));
                    self.graph@.lemma_half_edge(h);
                    assert(self.graph@.edges_of(before.skip(1)) =~= self.graph@.edges_of(
                        before,
                    ).skip(1));
                    assert forall|j: int| 0 <= j < before.skip(1).len() implies self.graph@.has(
                        #[trigger] before.skip(1)[j],
                    ) && self.graph@.kept(Keep::All, before.skip(1)[j]) by {
                        assert(before.skip(1)[j] == before[j + 1]);
                    }
                }
                let out = self.walk_graph().edge_of(h);
                Some(EdgeFn::new(self.walk_graph(), out))
            },
            None => None,
        }
    }

    /// The handles of everything that the traversal has yet to hand out,
    /// in its order.
    pub fn to_handles(self) -> (r: Vec<EdgeHandle>)
        requires
            self.wf(),
        ensures
            r@ == self.remaining(),
    {
        let ghost all = self.remaining();
        let mut rest = self;
        let mut done: Vec<EdgeHandle> = Vec::new();
        loop
            invariant
                rest.wf(),
                all == self.remaining(),
                done@.len() + rest.remaining().len() == all.len(),
                rest.remaining() == all.skip(done@.len() as int),
                forall|j: int| 0 <= j < done@.len() ==> #[trigger] done@[j] == all[j],
            decreases rest.remaining().len(),
        {
            let ghost before = rest.remaining();
            match rest.next() {
                Some(view) => {
                    proof {
                        assert(before[0] == all[done@.len() as int]);
                        assert(before.skip(1) =~= all.skip(done@.len() as int + 1));
                    }
                    done.push(view.handle());
                },
                None => {
                    proof {
                        assert(done@ =~= all);
                    }
                    return done;
                },
            }
        }
    }

    /// Everything that the traversal has yet to hand out, in its order.
    pub fn to_vec(self) -> (r: Vec<EdgeFn<'g, D>>)
        requires
            self.wf(),
        ensures
            r@.len() == self.remaining().len(),
            forall|j: int|
                0 <= j < r@.len() ==> (#[trigger] r@[j]).id() == self.remaining()[j] && r@[j].wf()
                    && r@[j].graph() == self.graph(),
    {
        let ghost all = self.remaining();
        let mut rest = self;
        let mut done: Vec<EdgeFn<'g, D>> = Vec::new();
        loop
            invariant
                rest.wf(),
                rest.graph() == self.graph(),
                all == self.remaining(),
                done@.len() + rest.remaining().len() == all.len(),
                rest.remaining() == all.skip(done@.len() as int),
                forall|j: int|
                    0 <= j < done@.len() ==> (#[trigger] done@[j]).id() == all[j] && done@[j].wf()
                        && done@[j].graph() == self.graph(),
            decreases rest.remaining().len(),
        {
            let ghost before = rest.remaining();
            match rest.next() {
                Some(view) => {
                    proof {
                        assert(before[0] == all[done@.len() as int]);
                        assert(before.skip(1) =~= all.skip(done@.len() as int + 1));
                    }
                    done.push(view);
                },
                None => {
                    return done;
                },
            }
        }
    }
}

/// The faces round a vertex.
pub struct VertexFaces<'g, D: Data> {
    walk: Walk<'g, D>,
    graph: &'g HalfEdgeGraph<D>,
}

impl<'g, D: Data> VertexFaces<'g, D> {
    /// The graph that is traversed.
    pub closed spec fn graph(&self) -> HalfEdgeGraph<D> {
        *self.graph
    }

    /// What the traversal has yet to hand out, in its order.
    pub closed spec fn remaining(&self) -> Seq<FaceHandle> {
        self.graph@.faces_of(self.walk.remaining())
    }

    /// The traversal is valid.
    pub closed spec fn wf(&self) -> bool {
        &&& self.walk.wf()
        &&& self.walk.graph() == *self.graph
        &&& self.graph.wf()
        &&& forall|j: int|
            0 <= j < self.walk.remaining().len() ==> self.graph@.has(
                #[trigger] self.walk.remaining()[j],
            ) && self.graph@.kept(Keep::Faced, self.walk.remaining()[j])
    }

    fn walk_graph(&self) -> (g: &'g HalfEdgeGraph<D>)
        ensures
            *g == self.graph(),
    {
        self.graph
    }

    /// The traversal from the entity that `view` shows.
    pub fn new(view: VertexFn<'g, D>) -> (r: Self)
        requires
            view.wf(),
        ensures
            r.wf(),
            r.graph() == view.graph(),
            r.remaining() == view.graph()@.vertex_faces(view.id()),
    {
        let graph = view.graph_ref();
        let handle = view.handle();
        let init = graph.hedge_of_vertex(handle);
        let ghost path = graph@.rings[handle];
        proof {
            if graph@.vertices[handle] is Some {
                graph@.lemma_ring_path(handle);
            }
            graph@.lemma_filtered_kept(Keep::Faced, path);
            if init is None {
                graph@.lemma_vertex(handle);
                assert(graph@.rings[handle] =~= Seq::empty());
                assert(path =~= Seq::empty());
            }
        }
        let walk = Walk::start(graph, init, Step::PairNext, Keep::Faced, Ghost(path));
        proof {
            if init is Some {
                assert forall|j: int| 0 <= j < walk.remaining().len() implies graph@.has(
                    #[trigger] walk.remaining()[j],
                ) by {
                    let h = walk.remaining()[j];
                    let k = choose|k: int| 0 <= k < path.len() && path[k] == h;
                    assert(graph@.has(path[k]));
                }
            }
        }
        VertexFaces { walk, graph }
    }

    /// Hands out the next entity of the traversal, or nothing when the
    /// traversal has come to its end.
    pub fn next(&mut self) -> (r: Option<FaceFn<'g, D>>)
        requires
            old(self).wf(),
        ensures
            final(self).wf(),
            final(self).graph() == old(self).graph(),
            match r {
                Some(view) => old(self).remaining().len() > 0 && view.id() == old(
                    self,
                ).remaining()[0] && view.wf() && view.graph() == old(self).graph()
                    && final(self).remaining() == old(self).remaining().skip(1),
                None => old(self).remaining().len() == 0 && final(self).remaining().len() == 0,
            },
    {
        let ghost before = self.walk.remaining();
        match self.walk.next() {
            Some(h) => {
                proof {
                    assert(self.graph@.has(before[0]));
                    assert(self.graph@.kept(Keep::Faced, before[0]));
                    self.graph@.lemma_half_edge(h);
                    assert(self.graph@.faces_of(before.skip(1)) =~= self.graph@.faces_of(
                        before,
                    ).skip(1));
                    assert forall|j: int| 0 <= j < before.skip(1).len() implies self.graph@.has(
                        #[trigger] before.skip(1)[j],
                    ) && self.graph@.kept(Keep::Faced, before.skip(1)[j]) by {
                        assert(before.skip(1)[j] == before[j + 1]);
                    }
                }
                let face = match self.walk_graph().face_of(h) {
                    Some(face) => face,
                    None => FaceHandle::null(),
                };
                Some(FaceFn::new(self.walk_graph(), face))
            },
            None => None,
        }
    }

    /// The handles of everything that the traversal has yet to hand out,
    /// in its order.
    pub fn to_handles(self) -> (r: Vec<FaceHandle>)
        requires
            self.wf(),
        ensures
            r@ == self.remaining(),
    {
        let ghost all = self.remaining();
        let mut rest = self;
        let mut done: Vec<FaceHandle> = Vec::new();
        loop
            invariant
                rest.wf(),
                all == self.remaining(),
                done@.len() + rest.remaining().len() == all.len(),
                rest.remaining() == all.skip(done@.len() as int),
                forall|j: int| 0 <= j < done@.len() ==> #[trigger] done@[j] == all[j],
            decreases rest.remaining().len(),
        {
            let ghost before = rest.remaining();
            match rest.next() {
                Some(view) => {
                    proof {
                        assert(before[0] == all[done@.len() as int]);
                        assert(before.skip(1) =~= all.skip(done@.len() as int + 1));
                    }
                    done.push(view.handle());
                },
                None => {
                    proof {
                        assert(done@ =~= all);
                    }
                    return done;
                },
            }
        }
    }

    /// Everything that the traversal has yet to hand out, in its order.
    pub fn to_vec(self) -> (r: Vec<FaceFn<'g, D>>)
        requires
            self.wf(),
        ensures
            r@.len() == self.remaining().len(),
            forall|j: int|
                0 <= j < r@.len() ==> (#[trigger] r@[j]).id() == self.remaining()[j] && r@[j].wf()
                    && r@[j].graph() == self.graph(),
    {
        let ghost all = self.remaining();
        let mut rest = self;
        let mut done: Vec<FaceFn<'g, D>> = Vec::new();
        loop
            invariant
                rest.wf(),
                rest.graph() == self.graph(),
                all == self.remaining(),
                done@.len() + rest.remaining().len() == all.len(),
                rest.remaining() == all.skip(done@.len() as int),
                forall|j: int|
                    0 <= j < done@.len() ==> (#[trigger] done@[j]).id() == all[j] && done@[j].wf()
                        && done@[j].graph() == self.graph(),
            decreases rest.remaining().len(),
        {
            let ghost before = rest.remaining();
            match rest.next() {
                Some(view) => {
                    proof {
                        assert(before[0] == all[done@.len() as int]);
                        assert(before.skip(1) =~= all.skip(done@.len() as int + 1));
                    }
                    done.push(view);
                },
                None => {
                    return done;
                },
            }
        }
    }
}

/// The faces on the two sides of an edge.
pub struct EdgeFaces<'g, D: Data> {
    walk: Walk<'g, D>,
    graph: &'g HalfEdgeGraph<D>,
}

impl<'g, D: Data> EdgeFaces<'g, D> {
    /// The graph that is traversed.
    pub closed spec fn graph(&self) -> HalfEdgeGraph<D> {
        *self.graph
    }

    /// What the traversal has yet to hand out, in its order.
    pub closed spec fn remaining(&self) -> Seq<FaceHandle> {
        self.graph@.faces_of(self.walk.remaining())
    }

    /// The traversal is valid.
    pub closed spec fn wf(&self) -> bool {
        &&& self.walk.wf()
        &&& self.walk.graph() == *self.graph
        &&& self.graph.wf()
        &&& forall|j: int|
            0 <= j < self.walk.remaining().len() ==> self.graph@.has(
                #[trigger] self.walk.remaining()[j],
            ) && self.graph@.kept(Keep::Faced, self.walk.remaining()[j])
    }

    fn walk_graph(&self) -> (g: &'g HalfEdgeGraph<D>)
        ensures
            *g == self.graph(),
    {
        self.graph
    }

    /// The traversal from the entity that `view` shows.
    pub fn new(view: EdgeFn<'g, D>) -> (r: Self)
        requires
            view.wf(),
        ensures
            r.wf(),
            r.graph() == view.graph(),
            r.remaining() == view.graph()@.edge_faces(view.id()),
    {
        let graph = view.graph_ref();
        let handle = view.handle();
        let init = Some(graph.hedge_of_edge(handle));
        let ghost path = graph@.sides(handle);
        proof {
            graph@.lemma_sides_path(handle);
            graph@.lemma_filtered_kept(Keep::Faced, path);
        }
        let walk = Walk::start(graph, init, Step::Pair, Keep::Faced, Ghost(path));
        proof {
            if init is Some {
                assert forall|j: int| 0 <= j < walk.remaining().len() implies graph@.has(
                    #[trigger] walk.remaining()[j],
                ) by {
                    let h = walk.remaining()[j];
                    let k = choose|k: int| 0 <= k < path.len() && path[k] == h;
                    assert(graph@.has(path[k]));
                }
            }
        }
        EdgeFaces { walk, graph }
    }

    /// Hands out the next entity of the traversal, or nothing when the
    /// traversal has come to its end.
    pub fn next(&mut self) -> (r: Option<FaceFn<'g, D>>)
        requires
            old(self).wf(),
        ensures
            final(self).wf(),
            final(self).graph() == old(self).graph(),
            match r {
                Some(view) => old(self).remaining().len() > 0 && view.id() == old(
                    self,
                ).remaining()[0] && view.wf() && view.graph() == old(self).graph()
                    && final(self).remaining() == old(self).remaining().skip(1),
                None => old(self).remaining().len() == 0 && final(self).remaining().len() == 0,
            },
    {
        let ghost before = self.walk.remaining();
        match self.walk.next() {
            Some(h) => {
                proof {
                    assert(self.graph@.has(before[0]));
                    assert(self.graph@.kept(Keep::Faced, before[0]));
                    self.graph@.lemma_half_edge(h);
                    assert(self.graph@.faces_of(before.skip(1)) =~= self.graph@.faces_of(
                        before,
                    ).skip(1));
                    assert forall|j: int| 0 <= j < before.skip(1).len() implies self.graph@.has(
                        #[trigger] before.skip(1)[j],
                    ) && self.graph@.kept(Keep::Faced, before.skip(1)[j]) by {
                        assert(before.skip(1)[j] == before[j + 1]);
                    }
                }
                let face = match self.walk_graph().face_of(h) {
                    Some(face) => face,
                    None => FaceHandle::null(),
                };
                Some(FaceFn::new(self.walk_graph(), face))
            },
            None => None,
        }
    }

    /// The handles of everything that the traversal has yet to hand out,
    /// in its order.
    pub fn to_handles(self) -> (r: Vec<FaceHandle>)
        requires
            self.wf(),
        ensures
            r@ == self.remaining(),
    {
        let ghost all = self.remaining();
        let mut rest = self;
        let mut done: Vec<FaceHandle> = Vec::new();
        loop
            invariant
                rest.wf(),
                all == self.remaining(),
                done@.len() + rest.remaining().len() == all.len(),
                rest.remaining() == all.skip(done@.len() as int),
                forall|j: int| 0 <= j < done@.len() ==> #[trigger] done@[j] == all[j],
            decreases rest.remaining().len(),
        {
            let ghost before = rest.remaining();
            match rest.next() {
                Some(view) => {
                    proof {
                        assert(before[0] == all[done@.len() as int]);
                        assert(before.skip(1) =~= all.skip(done@.len() as int + 1));
                    }
                    done.push(view.handle());
                },
                None => {
                    proof {
                        assert(done@ =~= all);
                    }
                    return done;
                },
            }
        }
    }

    /// Everything that the traversal has yet to hand out, in its order.
    pub fn to_vec(self) -> (r: Vec<FaceFn<'g, D>>)
        requires
            self.wf(),
        ensures
            r@.len() == self.remaining().len(),
            forall|j: int|
                0 <= j < r@.len() ==> (#[trigger] r@[j]).id() == self.remaining()[j] && r@[j].wf()
                    && r@[j].graph() == self.graph(),
    {
        let ghost all = self.remaining();
        let mut rest = self;
        let mut done: Vec<FaceFn<'g, D>> = Vec::new();
        loop
            invariant
                rest.wf(),
                rest.graph() == self.graph(),
                all == self.remaining(),
                done@.len() + rest.remaining().len() == all.len(),
                rest.remaining() == all.skip(done@.len() as int),
                forall|j: int|
                    0 <= j < done@.len() ==> (#[trigger] done@[j]).id() == all[j] && done@[j].wf()
                        && done@[j].graph() == self.graph(),
            decreases rest.remaining().len(),
        {
            let ghost before = rest.remaining();
            match rest.next() {
                Some(view) => {
                    proof {
                        assert(before[0] == all[done@.len() as int]);
                        assert(before.skip(1) =~= all.skip(done@.len() as int + 1));
                    }
                    done.push(view);
                },
                None => {
                    return done;
                },
            }
        }
    }
}

/// The vertices along the boundary of a face.
pub struct FaceVertices<'g, D: Data> {
    walk: Walk<'g, D>,
    graph: &'g HalfEdgeGraph<D>,
}

impl<'g, D: Data> FaceVertices<'g, D> {
    /// The graph that is traversed.
    pub closed spec fn graph(&self) -> HalfEdgeGraph<D> {
        *self.graph
    }

    /// What the traversal has yet to hand out, in its order.
    pub closed spec fn remaining(&self) -> Seq<VertexHandle> {
        self.graph@.targets_of(self.walk.remaining())
    }

    /// The traversal is valid.
    pub closed spec fn wf(&self) -> bool {
        &&& self.walk.wf()
        &&& self.walk.graph() == *self.graph
        &&& self.graph.wf()
        &&& forall|j: int|
            0 <= j < self.walk.remaining().len() ==> self.graph@.has(
                #[trigger] self.walk.remaining()[j],
            ) && self.graph@.kept(Keep::All, self.walk.remaining()[j])
    }

    fn walk_graph(&self) -> (g: &'g HalfEdgeGraph<D>)
        ensures
            *g == self.graph(),
    {
        self.graph
    }

    /// The traversal from the entity that `view` shows.
    pub fn new(view: FaceFn<'g, D>) -> (r: Self)
        requires
            view.wf(),
        ensures
            r.wf(),
            r.graph() == view.graph(),
            r.remaining() == view.graph()@.face_vertices(view.id()),
    {
        let graph = view.graph_ref();
        let handle = view.handle();
        let init = Some(graph.hedge_of_face(handle));
        let ghost path = graph@.loops[handle];
        proof {
            graph@.lemma_loop_path(handle);
            graph@.lemma_filtered_kept(Keep::All, path);
        }
        let walk = Walk::start(graph, init, Step::Next, Keep::All, Ghost(path));
        proof {
            if init is Some {
                assert forall|j: int| 0 <= j < walk.remaining().len() implies graph@.has(
                    #[trigger] walk.remaining()[j],
                ) by {
                    let h = walk.remaining()[j];
                    let k = choose|k: int| 0 <= k < path.len() && path[k] == h;
                    assert(graph@.has(path[k]));
                }
            }
        }
        FaceVertices { walk, graph }
    }

    /// Hands out the next entity of the traversal, or nothing when the
    /// traversal has come to its end.
    pub fn next(&mut self) -> (r: Option<VertexFn<'g, D>>)
        requires
            old(self).wf(),
        ensures
            final(self).wf(),
            final(self).graph() == old(self).graph(),
            match r {
                Some(view) => old(self).remaining().len() > 0 && view.id() == old(
                    self,
                ).remaining()[0] && view.wf() && view.graph() == old(self).graph()
                    && final(self).remaining() == old(self).remaining().skip(1),
                None => old(self).remaining().len() == 0 && final(self).remaining().len() == 0,
            },
    {
        let ghost before = self.walk.remaining();
        match self.walk.next() {
            Some(h) => {
                proof {
                    assert(self.graph@.has(before[0]));
                    assert(self.graph@.kept(Keep::All, before[0]));
                    self.graph@.lemma_half_edge(h);
                    assert(self.graph@.targets_of(before.skip(1)) =~= self.graph@.targets_of(
                        before,
                    ).skip(1));
                    assert forall|j: int| 0 <= j < before.skip(1).len() implies self.graph@.has(
                        #[trigger] before.skip(1)[j],
                    ) && self.graph@.kept(Keep::All, before.skip(1)[j]) by {
                        assert(before.skip(1)[j] == before[j + 1]);
                    }
                }
                let out = self.walk_graph().target_of(h);
                Some(VertexFn::new(self.walk_graph(), out))
            },
            None => None,
        }
    }

    /// The handles of everything that the traversal has yet to hand out,
    /// in its order.
    pub fn to_handles(self) -> (r: Vec<VertexHandle>)
        requires
            self.wf(),
        ensures
            r@ == self.remaining(),
    {
        let ghost all = self.remaining();
        let mut rest = self;
        let mut done: Vec<VertexHandle> = Vec::new();
        loop
            invariant
                rest.wf(),
                all == self.remaining(),
                done@.len() + rest.remaining().len() == all.len(),
                rest.remaining() == all.skip(done@.len() as int),
                forall|j: int| 0 <= j < done@.len() ==> #[trigger] done@[j] == all[j],
            decreases rest.remaining().len(),
        {
            let ghost before = rest.remaining();
            match rest.next() {
                Some(view) => {
                    proof {
                        assert(before[0] == all[done@.len() as int]);
                        assert(before.skip(1) =~= all.skip(done@.len() as int + 1));
                    }
                    done.push(view.handle());
                },
                None => {
                    proof {
                        assert(done@ =~= all);
                    }
                    return done;
                },
            }
        }
    }

    /// Everything that the traversal has yet to hand out, in its order.
    pub fn to_vec(self) -> (r: Vec<VertexFn<'g, D>>)
        requires
            self.wf(),
        ensures
            r@.len() == self.remaining().len(),
            forall|j: int|
                0 <= j < r@.len() ==> (#[trigger] r@[j]).id() == self.remaining()[j] && r@[j].wf()
                    && r@[j].graph() == self.graph(),
    {
        let ghost all = self.remaining();
        let mut rest = self;
        let mut done: Vec<VertexFn<'g, D>> = Vec::new();
        loop
            invariant
                rest.wf(),
                rest.graph() == self.graph(),
                all == self.remaining(),
                done@.len() + rest.remaining().len() == all.len(),
                rest.remaining() == all.skip(done@.len() as int),
                forall|j: int|
                    0 <= j < done@.len() ==> (#[trigger] done@[j]).id() == all[j] && done@[j].wf()
                        && done@[j].graph() == self.graph(),
            decreases rest.remaining().len(),
        {
            let ghost before = rest.remaining();
            match rest.next() {
                Some(view) => {
                    proof {
                        assert(before[0] == all[done@.len() as int]);
                        assert(before.skip(1) =~= all.skip(done@.len() as int + 1));
                    }
                    done.push(view);
                },
                None => {
                    return done;
                },
            }
        }
    }
}

/// The edges along the boundary of a face.
pub struct FaceEdges<'g, D: Data> {
    walk: Walk<'g, D>,
    graph: &'g HalfEdgeGraph<D>,
}

impl<'g, D: Data> FaceEdges<'g, D> {
    /// The graph that is traversed.
    pub closed spec fn graph(&self) -> HalfEdgeGraph<D> {
        *self.graph
    }

    /// What the traversal has yet to hand out, in its order.
    pub closed spec fn remaining(&self) -> Seq<EdgeHandle> {
        self.graph@.edges_of(self.walk.remaining())
    }

    /// The traversal is valid.
    pub closed spec fn wf(&self) -> bool {
        &&& self.walk.wf()
        &&& self.walk.graph() == *self.graph
        &&& self.graph.wf()
        &&& forall|j: int|
            0 <= j < self.walk.remaining().len() ==> self.graph@.has(
                #[trigger] self.walk.remaining()[j],
            ) && self.graph@.kept(Keep::All, self.walk.remaining()[j])
    }

    fn walk_graph(&self) -> (g: &'g HalfEdgeGraph<D>)
        ensures
            *g == self.graph(),
    {
        self.graph
    }

    /// The traversal from the entity that `view` shows.
    pub fn new(view: FaceFn<'g, D>) -> (r: Self)
        requires
            view.wf(),
        ensures
            r.wf(),
            r.graph() == view.graph(),
            r.remaining() == view.graph()@.face_edges(view.id()),
    {
        let graph = view.graph_ref();
        let handle = view.handle();
        let init = Some(graph.hedge_of_face(handle));
        let ghost path = graph@.loops[handle];
        proof {
            graph@.lemma_loop_path(handle);
            graph@.lemma_filtered_kept(Keep::All, path);
        }
        let walk = Walk::start(graph, init, Step::Next, Keep::All, Ghost(path));
        proof {
            if init is Some {
                assert forall|j: int| 0 <= j < walk.remaining().len() implies graph@.has(
                    #[trigger] walk.remaining()[j],
                ) by {
                    let h = walk.remaining()[j];
                    let k = choose|k: int| 0 <= k < path.len() && path[k] == h;
                    assert(graph@.has(path[k]));
                }
            }
        }
        FaceEdges { walk, graph }
    }

    /// Hands out the next entity of the traversal, or nothing when the
    /// traversal has come to its end.
    pub fn next(&mut self) -> (r: Option<EdgeFn<'g, D>>)
        requires
            old(self).wf(),
        ensures
            final(self).wf(),
            final(self).graph() == old(self).graph(),
            match r {
                Some(view) => old(self).remaining().len() > 0 && view.id() == old(
                    self,
                ).remaining()[0] && view.wf() && view.graph() == old(self).graph()
                    && final(self).remaining() == old(self).remaining().skip(1),
                None => old(self).remaining().len() == 0 && final(self).remaining().len() == 0,
            },
    {
        let ghost before = self.walk.remaining();
        match self.walk.next() {
            Some(h) => {
                proof {
                    assert(self.graph@.has(before[0]));
                    assert(self.graph@.kept(Keep::All, before[0]));
                    self.graph@.lemma_half_edge(h);
                    assert(self.graph@.edges_of(before.skip(1)) =~= self.graph@.edges_of(
                        before,
                    ).skip(1));
                    assert forall|j: int| 0 <= j < before.skip(1).len() implies self.graph@.has(
                        #[trigger] before.skip(1)[j],
                    ) && self.graph@.kept(Keep::All, before.skip(1)[j]) by {
                        assert(before.skip(1)[j] == before[j + 1]);
                    }
                }
                let out = self.walk_graph().edge_of(h);
                Some(EdgeFn::new(self.walk_graph(), out))
            },
            None => None,
        }
    }

    /// The handles of everything that the traversal has yet to hand out,
    /// in its order.
    pub fn to_handles(self) -> (r: Vec<EdgeHandle>)
        requires
            self.wf(),
        ensures
            r@ == self.remaining(),
    {
        let ghost all = self.remaining();
        let mut rest = self;
        let mut done: Vec<EdgeHandle> = Vec::new();
        loop
            invariant
                rest.wf(),
                all == self.remaining(),
                done@.len() + rest.remaining().len() == all.len(),
                rest.remaining() == all.skip(done@.len() as int),
                forall|j: int| 0 <= j < done@.len() ==> #[trigger] done@[j] == all[j],
            decreases rest.remaining().len(),
        {
            let ghost before = rest.remaining();
            match rest.next() {
                Some(view) => {
                    proof {
                        assert(before[0] == all[done@.len() as int]);
                        assert(before.skip(1) =~= all.skip(done@.len() as int + 1));
                    }
                    done.push(view.handle());
                },
                None => {
                    proof {
                        assert(done@ =~= all);
                    }
                    return done;
                },
            }
        }
    }

    /// Everything that the traversal has yet to hand out, in its order.
    pub fn to_vec(self) -> (r: Vec<EdgeFn<'g, D>>)
        requires
            self.wf(),
        ensures
            r@.len() == self.remaining().len(),
            forall|j: int|
                0 <= j < r@.len() ==> (#[trigger] r@[j]).id() == self.remaining()[j] && r@[j].wf()
                    && r@[j].graph() == self.graph(),
    {
        let ghost all = self.remaining();
        let mut rest = self;
        let mut done: Vec<EdgeFn<'g, D>> = Vec::new();
        loop
            invariant
                rest.wf(),
                rest.graph() == self.graph(),
                all == self.remaining(),
                done@.len() + rest.remaining().len() == all.len(),
                rest.remaining() == all.skip(done@.len() as int),
                forall|j: int|
                    0 <= j < done@.len() ==> (#[trigger] done@[j]).id() == all[j] && done@[j].wf()
                        && done@[j].graph() == self.graph(),
            decreases rest.remaining().len(),
        {
            let ghost before = rest.remaining();
            match rest.next() {
                Some(view) => {
                    proof {
                        assert(before[0] == all[done@.len() as int]);
                        assert(before.skip(1) =~= all.skip(done@.len() as int + 1));
                    }
                    done.push(view);
                },
                None => {
                    return done;
                },
            }
        }
    }
}

/// The faces that share an edge with a face.
pub struct FaceFaces<'g, D: Data> {
    walk: Walk<'g, D>,
    graph: &'g HalfEdgeGraph<D>,
}

impl<'g, D: Data> FaceFaces<'g, D> {
    /// The graph that is traversed.
    pub closed spec fn graph(&self) -> HalfEdgeGraph<D> {
        *self.graph
    }

    /// What the traversal has yet to hand out, in its order.
    pub closed spec fn remaining(&self) -> Seq<FaceHandle> {
        self.graph@.pair_faces_of(self.walk.remaining())
    }

    /// The traversal is valid.
    pub closed spec fn wf(&self) -> bool {
        &&& self.walk.wf()
        &&& self.walk.graph() == *self.graph
        &&& self.graph.wf()
        &&& forall|j: int|
            0 <= j < self.walk.remaining().len() ==> self.graph@.has(
                #[trigger] self.walk.remaining()[j],
            ) && self.graph@.kept(Keep::PairFaced, self.walk.remaining()[j])
    }

    fn walk_graph(&self) -> (g: &'g HalfEdgeGraph<D>)
        ensures
            *g == self.graph(),
    {
        self.graph
    }

    /// The traversal from the entity that `view` shows.
    pub fn new(view: FaceFn<'g, D>) -> (r: Self)
        requires
            view.wf(),
        ensures
            r.wf(),
            r.graph() == view.graph(),
            r.remaining() == view.graph()@.face_faces(view.id()),
    {
        let graph = view.graph_ref();
        let handle = view.handle();
        let init = Some(graph.hedge_of_face(handle));
        let ghost path = graph@.loops[handle];
        proof {
            graph@.lemma_loop_path(handle);
            graph@.lemma_filtered_kept(Keep::PairFaced, path);
        }
        let walk = Walk::start(graph, init, Step::Next, Keep::PairFaced, Ghost(path));
        proof {
            if init is Some {
                assert forall|j: int| 0 <= j < walk.remaining().len() implies graph@.has(
                    #[trigger] walk.remaining()[j],
                ) by {
                    let h = walk.remaining()[j];
                    let k = choose|k: int| 0 <= k < path.len() && path[k] == h;
                    assert(graph@.has(path[k]));
                }
            }
        }
        FaceFaces { walk, graph }
    }

    /// Hands out the next entity of the traversal, or nothing when the
    /// traversal has come to its end.
    pub fn next(&mut self) -> (r: Option<FaceFn<'g, D>>)
        requires
            old(self).wf(),
        ensures
            final(self).wf(),
            final(self).graph() == old(self).graph(),
            match r {
                Some(view) => old(self).remaining().len() > 0 && view.id() == old(
                    self,
                ).remaining()[0] && view.wf() && view.graph() == old(self).graph()
                    && final(self).remaining() == old(self).remaining().skip(1),
                None => old(self).remaining().len() == 0 && final(self).remaining().len() == 0,
            },
    {
        let ghost before = self.walk.remaining();
        match self.walk.next() {
            Some(h) => {
                proof {
                    assert(self.graph@.has(before[0]));
                    assert(self.graph@.kept(Keep::PairFaced, before[0]));
                    self.graph@.lemma_half_edge(h);
                    assert(self.graph@.pair_faces_of(before.skip(1)) =~= self.graph@.pair_faces_of(
                        before,
                    ).skip(1));
                    assert forall|j: int| 0 <= j < before.skip(1).len() implies self.graph@.has(
                        #[trigger] before.skip(1)[j],
                    ) && self.graph@.kept(Keep::PairFaced, before.skip(1)[j]) by {
                        assert(before.skip(1)[j] == before[j + 1]);
                    }
                }
                let pair = self.walk_graph().pair_of(h);
                let face = match self.walk_graph().face_of(pair) {
                    Some(face) => face,
                    None => FaceHandle::null(),
                };
                Some(FaceFn::new(self.walk_graph(), face))
            },
            None => None,
        }
    }

    /// The handles of everything that the traversal has yet to hand out,
    /// in its order.
    pub fn to_handles(self) -> (r: Vec<FaceHandle>)
        requires
            self.wf(),
        ensures
            r@ == self.remaining(),
    {
        let ghost all = self.remaining();
        let mut rest = self;
        let mut done: Vec<FaceHandle> = Vec::new();
        loop
            invariant
                rest.wf(),
                all == self.remaining(),
                done@.len() + rest.remaining().len() == all.len(),
                rest.remaining() == all.skip(done@.len() as int),
                forall|j: int| 0 <= j < done@.len() ==> #[trigger] done@[j] == all[j],
            decreases rest.remaining().len(),
        {
            let ghost before = rest.remaining();
            match rest.next() {
                Some(view) => {
                    proof {
                        assert(before[0] == all[done@.len() as int]);
                        assert(before.skip(1) =~= all.skip(done@.len() as int + 1));
                    }
                    done.push(view.handle());
                },
                None => {
                    proof {
                        assert(done@ =~= all);
                    }
                    return done;
                },
            }
        }
    }

    /// Everything that the traversal has yet to hand out, in its order.
    pub fn to_vec(self) -> (r: Vec<FaceFn<'g, D>>)
        requires
            self.wf(),
        ensures
            r@.len() == self.remaining().len(),
            forall|j: int|
                0 <= j < r@.len() ==> (#[trigger] r@[j]).id() == self.remaining()[j] && r@[j].wf()
                    && r@[j].graph() == self.graph(),
    {
        let ghost all = self.remaining();
        let mut rest = self;
        let mut done: Vec<FaceFn<'g, D>> = Vec::new();
        loop
            invariant
                rest.wf(),
                rest.graph() == self.graph(),
                all == self.remaining(),
                done@.len() + rest.remaining().len() == all.len(),
                rest.remaining() == all.skip(done@.len() as int),
                forall|j: int|
                    0 <= j < done@.len() ==> (#[trigger] done@[j]).id() == all[j] && done@[j].wf()
                        && done@[j].graph() == self.graph(),
            decreases rest.remaining().len(),
        {
            let ghost before = rest.remaining();
            match rest.next() {
                Some(view) => {
                    proof {
                        assert(before[0] == all[done@.len() as int]);
                        assert(before.skip(1) =~= all.skip(done@.len() as int + 1));
                    }
                    done.push(view);
                },
                None => {
                    return done;
                },
            }
        }
    }
}

impl<'g, D: Data> VertexFn<'g, D> {
    /// The half-edges that leave a vertex, as a traversal.
    pub fn out_half_edges(&self) -> (r: VertexOutHalfEdges<'g, D>)
        requires
            self.wf(),
        ensures
            r.wf(),
            r.graph() == self.graph(),
            r.remaining() == self.graph()@.out_half_edges(self.id()),
    {
        VertexOutHalfEdges::new(*self)
    }

    /// The half-edges that point to a vertex, as a traversal.
    pub fn in_half_edges(&self) -> (r: VertexInHalfEdges<'g, D>)
        requires
            self.wf(),
        ensures
            r.wf(),
            r.graph() == self.graph(),
            r.remaining() == self.graph()@.in_half_edges(self.id()),
    {
        VertexInHalfEdges::new(*self)
    }

    /// The vertices that an edge joins to a vertex, as a traversal.
    pub fn vertices(&self) -> (r: VertexVertex<'g, D>)
        requires
            self.wf(),
        ensures
            r.wf(),
            r.graph() == self.graph(),
            r.remaining() == self.graph()@.vertex_vertices(self.id()),
    {
        VertexVertex::new(*self)
    }

    /// The edges at a vertex, as a traversal.
    pub fn edges(&self) -> (r: VertexEdges<'g, D>)
        requires
            self.wf(),
        ensures
            r.wf(),
            r.graph() == self.graph(),
            r.remaining() == self.graph()@.vertex_edges(self.id()),
    {
        VertexEdges::new(*self)
    }

    /// The faces round a vertex, as a traversal.
    pub fn faces(&self) -> (r: VertexFaces<'g, D>)
        requires
            self.wf(),
        ensures
            r.wf(),
            r.graph() == self.graph(),
            r.remaining() == self.graph()@.vertex_faces(self.id()),
    {
        VertexFaces::new(*self)
    }
}

impl<'g, D: Data> EdgeFn<'g, D> {
    /// The faces on the two sides of an edge, as a traversal.
    pub fn faces(&self) -> (r: EdgeFaces<'g, D>)
        requires
            self.wf(),
        ensures
            r.wf(),
            r.graph() == self.graph(),
            r.remaining() == self.graph()@.edge_faces(self.id()),
    {
        EdgeFaces::new(*self)
    }
}

impl<'g, D: Data> FaceFn<'g, D> {
    /// The vertices along the boundary of a face, as a traversal.
    pub fn vertices(&self) -> (r: FaceVertices<'g, D>)
        requires
            self.wf(),
        ensures
            r.wf(),
            r.graph() == self.graph(),
            r.remaining() == self.graph()@.face_vertices(self.id()),
    {
        FaceVertices::new(*self)
    }

    /// The edges along the boundary of a face, as a traversal.
    pub fn edges(&self) -> (r: FaceEdges<'g, D>)
        requires
            self.wf(),
        ensures
            r.wf(),
            r.graph() == self.graph(),
            r.remaining() == self.graph()@.face_edges(self.id()),
    {
        FaceEdges::new(*self)
    }

    /// The faces that share an edge with a face, as a traversal.
    pub fn faces(&self) -> (r: FaceFaces<'g, D>)
        requires
            self.wf(),
        ensures
            r.wf(),
            r.graph() == self.graph(),
            r.remaining() == self.graph()@.face_faces(self.id()),
    {
        FaceFaces::new(*self)
    }
}

} // verus!
