//! Closing a loop of half-edges into a face, on the model, and what every
//! change of the builder leaves as it was.

use crate::handle::{EdgeHandle, FaceHandle, HalfEdgeHandle, VertexHandle};
use crate::topology::{cyc_next, Links, Topology};
use vstd::prelude::*;

verus! {

impl Topology {
    /// Whether `self` has grown from `before`: every entity of `before` is
    /// still there, no half-edge has changed its pair, its target or its
    /// edge, no edge or face its representative, no face its loop, and a
    /// half-edge that lay on a face has not changed at all.
    pub open spec fn grows_from(self, before: Topology) -> bool {
        &&& forall|v: VertexHandle| #[trigger] before.has_vertex(v) ==> self.has_vertex(v)
        &&& forall|e: EdgeHandle| #[trigger]
            before.has_edge(e) ==> self.has_edge(e) && self.edges[e] == before.edges[e]
        &&& forall|f: FaceHandle| #[trigger]
            before.has_face(f) ==> self.has_face(f) && self.faces[f] == before.faces[f]
                && self.loops[f] == before.loops[f]
        &&& forall|h: HalfEdgeHandle| #[trigger]
            before.has(h) ==> {
                &&& self.has(h)
                &&& self.pair(h) == before.pair(h)
                &&& self.target(h) == before.target(h)
                &&& self.edge(h) == before.edge(h)
                &&& (before.face(h) is Some ==> self.half_edges[h] == before.half_edges[h])
            }
    }

    /// Whether `self` has the faces of `before` and no others, and every
    /// half-edge of `before` lies on the face it lay on, or on none.
    pub open spec fn keeps_faces(self, before: Topology) -> bool {
        &&& self.faces == before.faces
        &&& self.loops == before.loops
        &&& forall|h: HalfEdgeHandle| #[trigger]
            before.has(h) ==> self.face(h) == before.face(h)
        &&& forall|h: HalfEdgeHandle| #[trigger]
            self.has(h) && !before.has(h) ==> self.face(h) is None
    }

    /// Whether `l` is a chain: half-edges of the graph on no face, each
    /// pointing to the vertex that the one behind it leaves, the last to
    /// the vertex that the first leaves.
    pub open spec fn chain(self, l: Seq<HalfEdgeHandle>) -> bool {
        forall|i: int|
            0 <= i < l.len() ==> {
                &&& self.has(#[trigger] l[i])
                &&& self.is_free(l[i])
                &&& self.target(l[i]) == self.origin(l[cyc_next(i, l.len() as int)])
            }
    }

    /// Whether no two half-edges of `l` point to the same vertex.
    pub open spec fn distinct_targets(self, l: Seq<HalfEdgeHandle>) -> bool {
        forall|i: int, j: int|
            0 <= i < l.len() && 0 <= j < l.len() && i != j ==> self.target(#[trigger] l[i])
                != self.target(#[trigger] l[j])
    }

    /// Whether the half-edge behind place `i` of `l` can be made the
    /// `next` of the one at place `i`.
    pub open spec fn corner(self, l: Seq<HalfEdgeHandle>, i: int) -> bool {
        self.can_adjoin(l[i], l[cyc_next(i, l.len() as int)])
    }

    /// Whether at every place of `l` the half-edge behind it can be made
    /// the `next` of the one at the place.
    pub open spec fn all_corners(self, l: Seq<HalfEdgeHandle>) -> bool {
        forall|i: int| 0 <= i < l.len() ==> #[trigger] self.corner(l, i)
    }

    /// Whether `l` is a closed loop: each half-edge has the one behind it
    /// as its `next`, the last has the first, and the first does not come
    /// again.
    pub open spec fn closed_loop(self, l: Seq<HalfEdgeHandle>) -> bool {
        &&& forall|i: int| 0 <= i < l.len() ==> #[trigger] self.loop_step(l, i)
        &&& forall|i: int| 0 < i < l.len() ==> #[trigger] l[i] != l[0]
    }

    /// Whether the half-edges of `l` lead along the vertices of `v`, the
    /// last one back to the first vertex.
    pub open spec fn follows(self, l: Seq<HalfEdgeHandle>, v: Seq<VertexHandle>) -> bool {
        &&& l.len() == v.len()
        &&& forall|i: int|
            0 <= i < l.len() ==> self.joins(#[trigger] l[i], v[i], v[cyc_next(i, v.len() as int)])
    }

    /// A half-edge keeps its ends when the graph grows.
    pub proof fn lemma_grows_joins(
        self,
        before: Topology,
        h: HalfEdgeHandle,
        v1: VertexHandle,
        v2: VertexHandle,
    )
        requires
            before.wf(),
            self.grows_from(before),
            before.joins(h, v1, v2),
        ensures
            self.joins(h, v1, v2),
    {
        before.lemma_half_edge(h);
        assert(before.has(before.pair(h)));
    }

    /// A graph has grown from itself.
    pub proof fn lemma_grows_reflexive(self)
        ensures
            self.grows_from(self),
            self.keeps_faces(self),
    {
    }

    /// Growth composes.
    pub proof fn lemma_grows_transitive(self, mid: Topology, before: Topology)
        requires
            self.grows_from(mid),
            mid.grows_from(before),
        ensures
            self.grows_from(before),
    {
        assert forall|v: VertexHandle| #[trigger] before.has_vertex(v) implies self.has_vertex(
            v,
        ) by {
            assert(mid.has_vertex(v));
        }
        assert forall|e: EdgeHandle| #[trigger] before.has_edge(e) implies self.has_edge(e)
            && self.edges[e] == before.edges[e] by {
            assert(mid.has_edge(e));
        }
        assert forall|f: FaceHandle| #[trigger] before.has_face(f) implies self.has_face(f)
            && self.faces[f] == before.faces[f] && self.loops[f] == before.loops[f] by {
            assert(mid.has_face(f));
        }
        assert forall|h: HalfEdgeHandle| #[trigger] before.has(h) implies {
            &&& self.has(h)
            &&& self.pair(h) == before.pair(h)
            &&& self.target(h) == before.target(h)
            &&& self.edge(h) == before.edge(h)
            &&& (before.face(h) is Some ==> self.half_edges[h] == before.half_edges[h])
        } by {
            assert(mid.has(h));
        }
    }

    /// Keeping the faces composes.
    pub proof fn lemma_keeps_faces_transitive(self, mid: Topology, before: Topology)
        requires
            self.keeps_faces(mid),
            mid.keeps_faces(before),
            self.grows_from(mid),
            mid.grows_from(before),
        ensures
            self.keeps_faces(before),
    {
        assert forall|h: HalfEdgeHandle| #[trigger] before.has(h) implies self.face(h)
            == before.face(h) by {
            assert(mid.has(h));
        }
        assert forall|h: HalfEdgeHandle| #[trigger] self.has(h) && !before.has(h) implies self.face(
            h,
        ) is None by {
            if mid.has(h) {
            }
        }
    }

    /// A graph with one more vertex has grown from the graph without it,
    /// and has its faces.
    pub proof fn lemma_with_vertex_grows(self, v: VertexHandle)
        ensures
            self.with_vertex(v).grows_from(self),
            self.with_vertex(v).keeps_faces(self),
    {
    }

    /// A graph with one more edge has grown from the graph without it, and
    /// has its faces.
    pub proof fn lemma_with_edge_grows(
        self,
        v1: VertexHandle,
        v2: VertexHandle,
        e: EdgeHandle,
        h1: HalfEdgeHandle,
        h2: HalfEdgeHandle,
    )
        requires
            self.wf(),
            self.edge_fits(v1, v2, e, h1, h2),
        ensures
            self.with_edge(v1, v2, e, h1, h2).grows_from(self),
            self.with_edge(v1, v2, e, h1, h2).keeps_faces(self),
            self.with_edge(v1, v2, e, h1, h2).joins(h1, v1, v2),
            self.with_edge(v1, v2, e, h1, h2).vertices.dom() == self.vertices.dom(),
    {
        let t = self.with_edge(v1, v2, e, h1, h2);
        self.lemma_with_edge_links(v1, v2, e, h1, h2);
        if self.free_place(self.rings[v1]) is Some {
            self.lemma_attach_site(v1);
        }
        if self.free_place(self.rings[v2]) is Some {
            self.lemma_attach_site(v2);
        }
        assert forall|h: HalfEdgeHandle| #[trigger] self.has(h) implies {
            &&& t.has(h)
            &&& t.pair(h) == self.pair(h)
            &&& t.target(h) == self.target(h)
            &&& t.edge(h) == self.edge(h)
            &&& t.face(h) == self.face(h)
            &&& (self.face(h) is Some ==> t.half_edges[h] == self.half_edges[h])
        } by {
            self.lemma_half_edge(h);
        }
        assert(t.vertices.dom() =~= self.vertices.dom());
    }

    /// A graph in which two half-edges have been made to follow each other
    /// has grown from the graph before, and has its faces.
    pub proof fn lemma_adjacent_made_grows(self, hi: HalfEdgeHandle, ho: HalfEdgeHandle)
        requires
            self.wf(),
            self.adjoinable(hi, ho),
            self.can_adjoin(hi, ho),
        ensures
            self.adjacent_made(hi, ho).grows_from(self),
            self.adjacent_made(hi, ho).keeps_faces(self),
            self.adjacent_made(hi, ho).half_edges.dom() == self.half_edges.dom(),
            self.adjacent_made(hi, ho).vertices == self.vertices,
            self.adjacent_made(hi, ho).edges == self.edges,
    {
        if self.next(hi) != ho {
            let t = self.adjoined(hi, ho);
            self.lemma_adjoin_site(hi, ho);
            self.lemma_adjoined_links(hi, ho);
            assert forall|h: HalfEdgeHandle| #[trigger] self.has(h) implies {
                &&& t.has(h)
                &&& t.pair(h) == self.pair(h)
                &&& t.target(h) == self.target(h)
                &&& t.edge(h) == self.edge(h)
                &&& t.face(h) == self.face(h)
                &&& (self.face(h) is Some ==> t.half_edges[h] == self.half_edges[h])
            } by {
                self.lemma_half_edge(h);
            }
        }
    }

    /// The graph with one more face `f`, whose boundary is the loop `l`.
    #[verifier::opaque]
    pub open spec fn with_face(self, f: FaceHandle, l: Seq<HalfEdgeHandle>) -> Topology {
        Topology {
            faces: self.faces.insert(f, l[0]),
            loops: self.loops.insert(f, l),
            half_edges: Map::new(
                |h: HalfEdgeHandle| self.has(h),
                |h: HalfEdgeHandle|
                    if l.contains(h) {
                        Links { face: Some(f), ..self.half_edges[h] }
                    } else {
                        self.half_edges[h]
                    },
            ),
            ..self
        }
    }

    /// What closing the loop `l` into the new face `f` asks: `l` holds at
    /// least two half-edges of the graph that lie on no face, each has the
    /// one behind it as its `next`, the last has the first, and the first
    /// does not come again.
    pub open spec fn face_fits(self, f: FaceHandle, l: Seq<HalfEdgeHandle>) -> bool {
        &&& !self.has_face(f)
        &&& l.len() >= 2
        &&& forall|i: int| 0 <= i < l.len() ==> self.has(#[trigger] l[i]) && self.is_free(l[i])
        &&& forall|i: int| 0 <= i < l.len() ==> #[trigger] self.loop_step(l, i)
        &&& forall|i: int| 0 < i < l.len() ==> #[trigger] l[i] != l[0]
    }

    /// A closed chain of `next` links in which the first half-edge does not
    /// come again holds no half-edge twice.
    pub proof fn lemma_loop_distinct(self, l: Seq<HalfEdgeHandle>, i: int, j: int)
        requires
            self.wf(),
            forall|i: int| 0 <= i < l.len() ==> self.has(#[trigger] l[i]),
            forall|i: int| 0 <= i < l.len() ==> #[trigger] self.loop_step(l, i),
            forall|i: int| 0 < i < l.len() ==> #[trigger] l[i] != l[0],
            0 <= i < j < l.len(),
        ensures
            l[i] != l[j],
        decreases i,
    {
        if i > 0 {
            self.lemma_loop_distinct(l, i - 1, j - 1);
            assert(self.loop_step(l, i - 1));
            assert(self.loop_step(l, j - 1));
            assert(self.has(l[i - 1]) && self.has(l[j - 1]));
            self.lemma_half_edge(l[i - 1]);
            self.lemma_half_edge(l[j - 1]);
        }
    }

    /// A loop that fits holds no half-edge twice.
    pub proof fn lemma_fit_distinct(self, f: FaceHandle, l: Seq<HalfEdgeHandle>)
        requires
            self.wf(),
            self.face_fits(f, l),
        ensures
            l.no_duplicates(),
    {
        assert forall|i: int, j: int| 0 <= i < l.len() && 0 <= j < l.len() && i != j implies l[i]
            != l[j] by {
            if i < j {
                self.lemma_loop_distinct(l, i, j);
            } else {
                self.lemma_loop_distinct(l, j, i);
            }
        }
    }

    /// The links of the graph after a loop has been closed into a face:
    /// nothing changes but the face of the half-edges of the loop.
    pub proof fn lemma_with_face_links(self, f: FaceHandle, l: Seq<HalfEdgeHandle>)
        requires
            self.wf(),
            self.face_fits(f, l),
        ensures
            ({
                let t = self.with_face(f, l);
                &&& t.half_edges.dom() == self.half_edges.dom()
                &&& t.vertices == self.vertices
                &&& t.edges == self.edges
                &&& t.rings == self.rings
                &&& t.faces == self.faces.insert(f, l[0])
                &&& t.loops == self.loops.insert(f, l)
                &&& forall|h: HalfEdgeHandle| #[trigger]
                    self.has(h) ==> t.half_edges[h] == Links {
                        face: if l.contains(h) {
                            Some(f)
                        } else {
                            self.face(h)
                        },
                        ..self.half_edges[h]
                    }
                &&& forall|i: int| 0 <= i < l.len() ==> (#[trigger] t.half_edges[l[i]]).face == Some(f)
                &&& forall|h: HalfEdgeHandle| #[trigger]
                    self.has(h) && self.face(h) is Some ==> t.half_edges[h] == self.half_edges[h]
            }),
    {
        reveal(Topology::with_face);
        let t = self.with_face(f, l);
        assert(t.half_edges.dom() =~= self.half_edges.dom());
        assert forall|i: int| 0 <= i < l.len() implies (#[trigger] t.half_edges[l[i]]).face == Some(
            f,
        ) by {
            assert(self.has(l[i]));
            assert(l.contains(l[i]));
        }
        assert forall|h: HalfEdgeHandle| #[trigger] self.has(h) && self.face(h) is Some implies t.half_edges[h]
            == self.half_edges[h] by {
            if l.contains(h) {
                let i = choose|i: int| 0 <= i < l.len() && l[i] == h;
                assert(self.is_free(l[i]));
            }
        }
    }

    /// After a loop has been closed into a face, every half-edge obeys the
    /// invariants.
    pub proof fn lemma_with_face_half_edges(self, f: FaceHandle, l: Seq<HalfEdgeHandle>)
        requires
            self.wf(),
            self.face_fits(f, l),
        ensures
            ({
                let t = self.with_face(f, l);
                forall|h: HalfEdgeHandle| #[trigger] t.has(h) ==> t.half_edge_ok(h)
            }),
    {
        let t = self.with_face(f, l);
        self.lemma_with_face_links(f, l);
        assert forall|h: HalfEdgeHandle| #[trigger] t.has(h) implies t.half_edge_ok(h) by {
            assert(self.has(h));
            self.lemma_half_edge(h);
            let n = self.next(h);
            self.lemma_half_edge(n);
            assert(self.has(self.pair(n)));
            assert(self.has(self.pair(h)));
            assert(self.has(self.prev(h)));
            assert(l.contains(h) ==> l.contains(n)) by {
                if l.contains(h) {
                    let i = choose|i: int| 0 <= i < l.len() && l[i] == h;
                    assert(self.loop_step(l, i));
                    assert(l[cyc_next(i, l.len() as int)] == n);
                }
            }
            assert(l.contains(n) ==> l.contains(h)) by {
                if l.contains(n) {
                    let j = choose|j: int| 0 <= j < l.len() && l[j] == n;
                    let p = if j == 0 {
                        l.len() - 1
                    } else {
                        j - 1
                    };
                    assert(self.loop_step(l, p));
                    assert(self.has(l[p]));
                    self.lemma_half_edge(l[p]);
                    assert(l[p] == h);
                }
            }
            assert(l.contains(h) ==> self.is_free(h)) by {
                if l.contains(h) {
                    let i = choose|i: int| 0 <= i < l.len() && l[i] == h;
                    assert(self.is_free(l[i]));
                }
            }
            assert(t.face(h) == (if l.contains(h) {
                Some(f)
            } else {
                self.face(h)
            }));
            assert(t.face(n) == (if l.contains(n) {
                Some(f)
            } else {
                self.face(n)
            }));
            if self.face(h) is Some {
                assert(self.has_face(self.face(h)->Some_0));
            }
        }
    }

    /// After a loop has been closed into a face, the vertices, edges and
    /// faces obey the invariants, and no two half-edges run in parallel.
    pub proof fn lemma_with_face_rest(self, f: FaceHandle, l: Seq<HalfEdgeHandle>)
        requires
            self.wf(),
            self.face_fits(f, l),
        ensures
            ({
                let t = self.with_face(f, l);
                &&& forall|u: VertexHandle| #[trigger] t.has_vertex(u) ==> t.vertex_ok(u)
                &&& forall|g: EdgeHandle| #[trigger] t.has_edge(g) ==> t.edge_ok(g)
                &&& forall|g: FaceHandle| #[trigger] t.has_face(g) ==> t.face_ok(g)
                &&& t.simple()
                &&& t.edges_paired()
                &&& t.loops.dom() == t.faces.dom()
                &&& t.rings.dom() == t.vertices.dom()
            }),
    {
        let t = self.with_face(f, l);
        self.lemma_fit_distinct(f, l);
        self.lemma_domains();
        self.lemma_with_face_links(f, l);
        assert(t.loops.dom() =~= t.faces.dom());
        assert forall|u: VertexHandle| #[trigger] t.has_vertex(u) implies t.vertex_ok(u) by {
            assert(self.has_vertex(u));
            self.lemma_vertex(u);
            let r = self.rings[u];
            assert forall|i: int| 0 <= i < r.len() implies {
                &&& t.half_edges.dom().contains(#[trigger] r[i])
                &&& t.origin(r[i]) == u
            } by {
                assert(self.has(r[i]));
                self.lemma_half_edge(r[i]);
            }
            assert forall|i: int| 0 <= i < r.len() implies #[trigger] t.ring_step(r, i) by {
                assert(self.has(r[i]));
                self.lemma_half_edge(r[i]);
                assert(self.ring_step(r, i));
            }
        }
        assert forall|g: EdgeHandle| #[trigger] t.has_edge(g) implies t.edge_ok(g) by {
            assert(self.has_edge(g));
            self.lemma_edge(g);
        }
        assert forall|g: FaceHandle| #[trigger] t.has_face(g) implies t.face_ok(g) by {
            if g == f {
                assert forall|i: int| 0 <= i < l.len() implies #[trigger] t.loop_step(l, i) by {
                    assert(self.loop_step(l, i));
                    assert(self.has(l[i]));
                }
                assert forall|i: int| 0 <= i < l.len() implies {
                    &&& t.half_edges.dom().contains(#[trigger] l[i])
                    &&& t.half_edges[l[i]].face == Some(f)
                } by {
                    assert(self.has(l[i]));
                }
            } else {
                assert(self.has_face(g));
                self.lemma_face(g);
                let m = self.loops[g];
                assert forall|i: int| 0 <= i < m.len() implies {
                    &&& t.half_edges.dom().contains(#[trigger] m[i])
                    &&& t.half_edges[m[i]].face == Some(g)
                } by {
                    assert(self.has(m[i]));
                }
                assert forall|i: int| 0 <= i < m.len() implies #[trigger] t.loop_step(m, i) by {
                    assert(self.has(m[i]));
                    assert(self.loop_step(m, i));
                }
            }
        }
        assert forall|x: HalfEdgeHandle, y: HalfEdgeHandle|
            #![trigger t.has(x), t.has(y)]
            t.has(x) && t.has(y) && t.origin(x) == t.origin(y) && t.target(x) == t.target(
                y,
            ) implies x == y by {
            reveal(Topology::wf);
            assert(self.has(x) && self.has(y));
            self.lemma_half_edge(x);
            self.lemma_half_edge(y);
        }
        assert forall|x: HalfEdgeHandle, y: HalfEdgeHandle|
            #![trigger t.has(x), t.has(y)]
            t.has(x) && t.has(y) && t.edge(x) == t.edge(y) implies x == y || y == t.pair(x) by {
            reveal(Topology::wf);
            assert(self.has(x) && self.has(y));
        }
    }

    /// A graph with one more face has grown from the graph without it.
    pub proof fn lemma_with_face_grows(self, f: FaceHandle, l: Seq<HalfEdgeHandle>)
        requires
            self.wf(),
            self.face_fits(f, l),
        ensures
            self.with_face(f, l).grows_from(self),
    {
        let t = self.with_face(f, l);
        self.lemma_with_face_links(f, l);
        assert forall|g: FaceHandle| #[trigger] self.has_face(g) implies t.has_face(g) && t.faces[g]
            == self.faces[g] && t.loops[g] == self.loops[g] by {}
        assert forall|h: HalfEdgeHandle| #[trigger] self.has(h) implies {
            &&& t.has(h)
            &&& t.pair(h) == self.pair(h)
            &&& t.target(h) == self.target(h)
            &&& t.edge(h) == self.edge(h)
            &&& (self.face(h) is Some ==> t.half_edges[h] == self.half_edges[h])
        } by {
            self.lemma_half_edge(h);
        }
    }

    /// Closing a loop into a face keeps the graph well formed.
    pub proof fn lemma_with_face_wf(self, f: FaceHandle, l: Seq<HalfEdgeHandle>)
        requires
            self.wf(),
            self.face_fits(f, l),
        ensures
            self.with_face(f, l).wf(),
            self.with_face(f, l).grows_from(self),
    {
        self.lemma_with_face_half_edges(f, l);
        self.lemma_with_face_rest(f, l);
        self.lemma_with_face_grows(f, l);
        reveal(Topology::wf);
    }
}

} // verus!
