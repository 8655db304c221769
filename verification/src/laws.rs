//! What holds of every well-formed graph and of the builder's operations,
//! stated on the model and proved.

use crate::handle::{EdgeHandle, FaceHandle, HalfEdgeHandle, VertexHandle};
use crate::topology::{cyc_next, Topology};
use crate::traversal::Keep;
use vstd::prelude::*;

verus! {

impl Topology {
    /// The half-edge invariants: the pair of the pair of a half-edge is
    /// the half-edge itself; a half-edge and its pair point to different
    /// vertices and belong to the same edge; `next` and `prev` undo each
    /// other; a half-edge and its `next` lie on the same face, or both on
    /// none; and a half-edge points to the vertex that its `next` leaves.
    pub proof fn law_half_edge_invariants(self, h: HalfEdgeHandle)
        requires
            self.wf(),
            self.has(h),
        ensures
            self.pair(self.pair(h)) == h,
            self.target(h) != self.target(self.pair(h)),
            self.next(self.prev(h)) == h,
            self.prev(self.next(h)) == h,
            self.face(h) == self.face(self.next(h)),
            self.edge(h) == self.edge(self.pair(h)),
            self.target(h) == self.target(self.pair(self.next(h))),
    {
        self.lemma_half_edge(h);
    }

    /// At most one edge joins two vertices: two half-edges with the same
    /// ends are one.
    pub proof fn law_simple(self, a: HalfEdgeHandle, b: HalfEdgeHandle)
        requires
            self.wf(),
            self.has(a),
            self.has(b),
            self.origin(a) == self.origin(b),
            self.target(a) == self.target(b),
        ensures
            a == b,
    {
        reveal(Topology::wf);
    }

    /// An edge has exactly two half-edges: a half-edge that belongs to the
    /// edge of another is that other or its pair.
    pub proof fn law_two_half_edges(self, a: HalfEdgeHandle, b: HalfEdgeHandle)
        requires
            self.wf(),
            self.has(a),
            self.has(b),
            self.edge(a) == self.edge(b),
        ensures
            b == a || b == self.pair(a),
    {
        reveal(Topology::wf);
    }

    /// No edge can be added from a vertex to itself.
    pub proof fn law_no_self_edge(self, v: VertexHandle)
        ensures
            !self.can_join(v, v),
    {
    }

    /// Once an edge joins two vertices, no second one can be added between
    /// them, in either direction.
    pub proof fn law_edge_once(
        self,
        v1: VertexHandle,
        v2: VertexHandle,
        e: EdgeHandle,
        h1: HalfEdgeHandle,
        h2: HalfEdgeHandle,
    )
        requires
            self.wf(),
            self.edge_fits(v1, v2, e, h1, h2),
        ensures
            !self.with_edge(v1, v2, e, h1, h2).can_join(v1, v2),
            !self.with_edge(v1, v2, e, h1, h2).can_join(v2, v1),
            self.with_edge(v1, v2, e, h1, h2).half_edge_between(v1, v2) == Some(h1),
            self.with_edge(v1, v2, e, h1, h2).half_edge_between(v2, v1) == Some(h2),
    {
        let t = self.with_edge(v1, v2, e, h1, h2);
        self.lemma_with_edge_wf(v1, v2, e, h1, h2);
        self.lemma_with_edge_grows(v1, v2, e, h1, h2);
        self.lemma_with_edge_links(v1, v2, e, h1, h2);
        t.lemma_between_unique(h1, v1, v2);
        t.lemma_joins_pair(h1, v1, v2);
        t.lemma_between_unique(h2, v2, v1);
    }

    /// The half-edges that the traversal of the outgoing half-edges of a
    /// vertex hands out are exactly the half-edges that leave the vertex,
    /// each once.
    pub proof fn law_out_half_edges(self, v: VertexHandle)
        requires
            self.wf(),
            self.has_vertex(v),
        ensures
            self.out_half_edges(v) == self.rings[v],
            self.out_half_edges(v).no_duplicates(),
            forall|h: HalfEdgeHandle|
                self.out_half_edges(v).contains(h) <==> self.has(h) && self.origin(h) == v,
    {
        self.lemma_vertex(v);
        let r = self.rings[v];
        self.lemma_filtered_all(r);
        assert forall|h: HalfEdgeHandle| r.contains(h) <==> self.has(h) && self.origin(h)
            == v by {
            if r.contains(h) {
                let i = choose|i: int| 0 <= i < r.len() && r[i] == h;
                assert(self.has(r[i]));
            }
            if self.has(h) && self.origin(h) == v {
                self.lemma_half_edge(h);
            }
        }
    }

    /// The half-edges that lie on a face are exactly those of its loop,
    /// each once, and walking the loop by `next` leads from each to the
    /// one behind it and from the last back to the representative.
    pub proof fn law_face_loop(self, f: FaceHandle)
        requires
            self.wf(),
            self.has_face(f),
        ensures
            self.loops[f].no_duplicates(),
            self.loops[f][0] == self.faces[f],
            forall|h: HalfEdgeHandle|
                self.loops[f].contains(h) <==> self.has(h) && self.face(h) == Some(f),
            forall|i: int|
                0 <= i < self.loops[f].len() ==> self.next(#[trigger] self.loops[f][i])
                    == self.loops[f][cyc_next(i, self.loops[f].len() as int)],
    {
        self.lemma_face(f);
        let l = self.loops[f];
        assert forall|h: HalfEdgeHandle| l.contains(h) <==> self.has(h) && self.face(h) == Some(
            f,
        ) by {
            if l.contains(h) {
                let i = choose|i: int| 0 <= i < l.len() && l[i] == h;
                assert(self.has(l[i]));
            }
            if self.has(h) && self.face(h) == Some(f) {
                self.lemma_half_edge(h);
            }
        }
        assert forall|i: int| 0 <= i < l.len() implies self.next(#[trigger] l[i]) == l[cyc_next(
            i,
            l.len() as int,
        )] by {
            assert(self.loop_step(l, i));
        }
    }

    /// The traversal of the vertices of a face whose loop leads along the
    /// vertices `v` hands out the vertices of `v` in their order, begun at
    /// the second and ended with the first: as many as `v` holds, and as a
    /// set exactly those of `v`.
    pub proof fn law_face_vertices(self, f: FaceHandle, v: Seq<VertexHandle>)
        requires
            self.follows(self.loops[f], v),
        ensures
            self.face_vertices(f).len() == v.len(),
            forall|i: int|
                0 <= i < v.len() ==> #[trigger] self.face_vertices(f)[i] == v[cyc_next(
                    i,
                    v.len() as int,
                )],
            self.face_vertices(f).to_set() == v.to_set(),
    {
        let l = self.loops[f];
        self.lemma_filtered_all(l);
        let fv = self.face_vertices(f);
        let n = v.len() as int;
        assert forall|i: int| 0 <= i < n implies #[trigger] fv[i] == v[cyc_next(i, n)] by {
            assert(self.joins(l[i], v[i], v[cyc_next(i, n)]));
        }
        assert forall|x: VertexHandle| fv.to_set().contains(x) <==> v.to_set().contains(x) by {
            if fv.to_set().contains(x) {
                let i = choose|i: int| 0 <= i < fv.len() && fv[i] == x;
                assert(fv[i] == v[cyc_next(i, n)]);
                assert(v.contains(v[cyc_next(i, n)]));
            }
            if v.to_set().contains(x) {
                let j = choose|j: int| 0 <= j < v.len() && v[j] == x;
                let i = if j == 0 {
                    n - 1
                } else {
                    j - 1
                };
                assert(fv[i] == v[cyc_next(i, n)]);
                assert(fv.contains(fv[i]));
            }
        }
        assert(fv.to_set() =~= v.to_set());
    }

    /// The faces that the traversal of the faces of an edge hands out are
    /// the faces on which the two half-edges of the edge lie: none, one or
    /// two.
    pub proof fn law_edge_faces(self, e: EdgeHandle)
        requires
            self.wf(),
            self.has_edge(e),
        ensures
            self.edge_faces(e).len() <= 2,
            forall|f: FaceHandle|
                self.edge_faces(e).contains(f) <==> self.face(self.edges[e]) == Some(f)
                    || self.face(self.pair(self.edges[e])) == Some(f),
    {
        let h = self.edges[e];
        let p = self.pair(h);
        let s = self.sides(e);
        let kept = self.filtered(Keep::Faced, s);
        assert(s.skip(1) =~= seq![p]);
        assert(s.skip(1).skip(1) =~= Seq::<HalfEdgeHandle>::empty());
        assert(self.filtered(Keep::Faced, s.skip(1).skip(1)) =~= Seq::<HalfEdgeHandle>::empty());
        let tail = self.filtered(Keep::Faced, s.skip(1));
        assert(tail =~= (if self.face(p) is Some {
            seq![p]
        } else {
            Seq::empty()
        }));
        assert(kept =~= (if self.face(h) is Some {
            seq![h] + tail
        } else {
            tail
        }));
        let faces = self.edge_faces(e);
        assert forall|f: FaceHandle| faces.contains(f) <==> self.face(h) == Some(f) || self.face(p)
            == Some(f) by {
            if faces.contains(f) {
                let i = choose|i: int| 0 <= i < faces.len() && faces[i] == f;
                assert(faces[i] == self.face(kept[i])->Some_0);
            }
            if self.face(h) == Some(f) {
                assert(faces[0] == f);
            } else if self.face(p) == Some(f) {
                assert(faces[kept.len() - 1] == f);
            }
        }
    }

    /// The ring of a vertex is laid down by the links: a sequence that
    /// begins where the ring begins, and in which each half-edge is
    /// followed by the next one in the rotation and the last by the
    /// first, none coming twice, is the ring.
    pub proof fn law_ring_determined(self, v: VertexHandle, s: Seq<HalfEdgeHandle>)
        requires
            self.wf(),
            self.has_vertex(v),
            self.ring_cycle(v, s),
            s.len() > 0,
            self.rings[v].len() > 0,
            s[0] == self.rings[v][0],
        ensures
            s == self.rings[v],
    {
        self.lemma_vertex(v);
        let r = self.rings[v];
        assert forall|i: int| 0 <= i < s.len() && 0 <= i < r.len() implies s[i] == r[i] by {
            self.lemma_same_walk(r, s, i);
        }
        if s.len() < r.len() {
            let n = s.len() as int;
            assert(self.ring_step(s, n - 1));
            assert(self.ring_step(r, n - 1));
            assert(s[n - 1] == r[n - 1]);
            assert(r[n] == r[0]);
        }
        if r.len() < s.len() {
            let n = r.len() as int;
            assert(self.ring_step(s, n - 1));
            assert(self.ring_step(r, n - 1));
            assert(s[n - 1] == r[n - 1]);
            assert(s[n] == s[0]);
        }
        assert(s =~= r);
    }

    /// Two sequences that begin with the same half-edge and in which each
    /// half-edge is followed by the next one in the rotation hold the same
    /// half-edges at the same places.
    pub proof fn lemma_same_walk(self, r: Seq<HalfEdgeHandle>, s: Seq<HalfEdgeHandle>, i: int)
        requires
            0 <= i < r.len(),
            0 <= i < s.len(),
            r[0] == s[0],
            forall|j: int| 0 <= j < r.len() ==> #[trigger] self.ring_step(r, j),
            forall|j: int| 0 <= j < s.len() ==> #[trigger] self.ring_step(s, j),
        ensures
            r[i] == s[i],
        decreases i,
    {
        if i > 0 {
            self.lemma_same_walk(r, s, i - 1);
            assert(self.ring_step(r, i - 1));
            assert(self.ring_step(s, i - 1));
        }
    }
}

} // verus!
