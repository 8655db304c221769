//! The mathematical model of a half-edge graph, and what it means for one
//! to be well formed.
//!
//! A [`Topology`] holds the links of every entity as plain maps. Beside the
//! links it lists, for every vertex, the half-edges that leave it in the
//! order in which a rotation about the vertex meets them, and, for every
//! face, the half-edges of its boundary in the order of the loop. The lists
//! are determined by the links of a well-formed graph; they are kept so
//! that statements about rings and loops can be made over sequences.

use crate::handle::{EdgeHandle, FaceHandle, HalfEdgeHandle, VertexHandle};
use vstd::prelude::*;

verus! {

/// The relations of one half-edge.
pub struct Links {
    /// The opposite direction of the same edge.
    pub pair: HalfEdgeHandle,
    /// The half-edge that follows in the loop.
    pub next: HalfEdgeHandle,
    /// The half-edge that precedes in the loop.
    pub prev: HalfEdgeHandle,
    /// The vertex that the half-edge points to.
    pub vertex: VertexHandle,
    /// The edge that owns the half-edge.
    pub edge: EdgeHandle,
    /// The face whose boundary the half-edge lies on, if any.
    pub face: Option<FaceHandle>,
}

/// A half-edge graph as a mathematical value.
#[verifier::ext_equal]
pub struct Topology {
    /// Each vertex with its representative half-edge, or none if isolated.
    pub vertices: Map<VertexHandle, Option<HalfEdgeHandle>>,
    /// Each edge with its representative half-edge.
    pub edges: Map<EdgeHandle, HalfEdgeHandle>,
    /// Each face with its representative half-edge.
    pub faces: Map<FaceHandle, HalfEdgeHandle>,
    /// Each half-edge with its relations.
    pub half_edges: Map<HalfEdgeHandle, Links>,
    /// For each vertex the half-edges that leave it, in rotation order,
    /// the representative first.
    pub rings: Map<VertexHandle, Seq<HalfEdgeHandle>>,
    /// For each face the half-edges of its boundary, in loop order, the
    /// representative first.
    pub loops: Map<FaceHandle, Seq<HalfEdgeHandle>>,
}

/// The index that follows `i` in a cycle of `n` places.
pub open spec fn cyc_next(i: int, n: int) -> int {
    if i + 1 == n {
        0
    } else {
        i + 1
    }
}

/// The sequence `s` begun at place `p` and continued round its end.
pub open spec fn rotated(s: Seq<HalfEdgeHandle>, p: int) -> Seq<HalfEdgeHandle> {
    s.subrange(p, s.len() as int) + s.subrange(0, p)
}

/// A place at which `x` stands in `s`, where there is one.
pub open spec fn place_of(s: Seq<HalfEdgeHandle>, x: HalfEdgeHandle) -> int {
    choose|i: int| 0 <= i < s.len() && s[i] == x
}

/// The place in `s` of what stands at place `j` of `rotated(s, p)`.
pub open spec fn rotated_place(j: int, p: int, n: int) -> int {
    if p + j < n {
        p + j
    } else {
        p + j - n
    }
}

/// What stands where in a rotated sequence.
pub proof fn lemma_rotated(s: Seq<HalfEdgeHandle>, p: int)
    requires
        0 <= p < s.len(),
    ensures
        rotated(s, p).len() == s.len(),
        rotated(s, p)[0] == s[p],
        forall|j: int|
            0 <= j < s.len() ==> #[trigger] rotated(s, p)[j] == s[rotated_place(
                j,
                p,
                s.len() as int,
            )],
        forall|x: HalfEdgeHandle| rotated(s, p).contains(x) <==> s.contains(x),
        s.no_duplicates() ==> rotated(s, p).no_duplicates(),
        rotated(s, 0) == s,
{
    let r = rotated(s, p);
    let n = s.len() as int;
    assert forall|x: HalfEdgeHandle| r.contains(x) <==> s.contains(x) by {
        if r.contains(x) {
            let j = choose|j: int| 0 <= j < r.len() && r[j] == x;
            assert(s[rotated_place(j, p, n)] == x);
        }
        if s.contains(x) {
            let k = choose|k: int| 0 <= k < s.len() && s[k] == x;
            let j = if k >= p {
                k - p
            } else {
                k + n - p
            };
            assert(r[j] == x);
        }
    }
    if s.no_duplicates() {
        assert forall|a: int, b: int| 0 <= a < r.len() && 0 <= b < r.len() && a != b implies r[a]
            != r[b] by {
            assert(r[a] == s[rotated_place(a, p, n)]);
            assert(r[b] == s[rotated_place(b, p, n)]);
        }
    }
    assert(rotated(s, 0) =~= s);
}

impl Topology {
    /// The graph without entities.
    pub open spec fn empty() -> Topology {
        Topology {
            vertices: Map::empty(),
            edges: Map::empty(),
            faces: Map::empty(),
            half_edges: Map::empty(),
            rings: Map::empty(),
            loops: Map::empty(),
        }
    }

    /// Whether `h` is a half-edge of the graph.
    pub open spec fn has(self, h: HalfEdgeHandle) -> bool {
        self.half_edges.dom().contains(h)
    }

    /// Whether `v` is a vertex of the graph.
    pub open spec fn has_vertex(self, v: VertexHandle) -> bool {
        self.vertices.dom().contains(v)
    }

    /// Whether `e` is an edge of the graph.
    pub open spec fn has_edge(self, e: EdgeHandle) -> bool {
        self.edges.dom().contains(e)
    }

    /// Whether `f` is a face of the graph.
    pub open spec fn has_face(self, f: FaceHandle) -> bool {
        self.faces.dom().contains(f)
    }

    pub open spec fn pair(self, h: HalfEdgeHandle) -> HalfEdgeHandle {
        self.half_edges[h].pair
    }

    pub open spec fn next(self, h: HalfEdgeHandle) -> HalfEdgeHandle {
        self.half_edges[h].next
    }

    pub open spec fn prev(self, h: HalfEdgeHandle) -> HalfEdgeHandle {
        self.half_edges[h].prev
    }

    /// The vertex that `h` points to.
    pub open spec fn target(self, h: HalfEdgeHandle) -> VertexHandle {
        self.half_edges[h].vertex
    }

    /// The vertex that `h` leaves: the one its pair points to.
    pub open spec fn origin(self, h: HalfEdgeHandle) -> VertexHandle {
        self.half_edges[self.half_edges[h].pair].vertex
    }

    pub open spec fn edge(self, h: HalfEdgeHandle) -> EdgeHandle {
        self.half_edges[h].edge
    }

    pub open spec fn face(self, h: HalfEdgeHandle) -> Option<FaceHandle> {
        self.half_edges[h].face
    }

    /// The half-edge that follows `h` in the rotation about its origin.
    pub open spec fn rot(self, h: HalfEdgeHandle) -> HalfEdgeHandle {
        self.half_edges[self.half_edges[h].pair].next
    }

    /// What holds of every half-edge: its links lead to entities of the
    /// graph, and they obey the half-edge invariants.
    pub open spec fn half_edge_ok(self, h: HalfEdgeHandle) -> bool {
        let l = self.half_edges[h];
        &&& self.half_edges.dom().contains(l.pair)
        &&& self.half_edges.dom().contains(l.next)
        &&& self.half_edges.dom().contains(l.prev)
        &&& self.vertices.dom().contains(l.vertex)
        &&& self.edges.dom().contains(l.edge)
        &&& (l.face matches Some(f) ==> self.faces.dom().contains(f))
        &&& self.half_edges[l.pair].pair == h
        &&& self.half_edges[l.pair].vertex != l.vertex
        &&& self.half_edges[l.next].prev == h
        &&& self.half_edges[l.prev].next == h
        &&& self.half_edges[l.next].face == l.face
        &&& self.half_edges[l.pair].edge == l.edge
        &&& self.half_edges[self.half_edges[l.next].pair].vertex == l.vertex
        &&& self.rings[self.half_edges[l.pair].vertex].contains(h)
        &&& (l.face matches Some(f) ==> self.loops[f].contains(h))
    }

    /// Whether `r` lists half-edges that leave `v`, each followed by the
    /// next one in the rotation about `v`, the last by the first.
    pub open spec fn ring_cycle(self, v: VertexHandle, r: Seq<HalfEdgeHandle>) -> bool {
        &&& r.no_duplicates()
        &&& forall|i: int|
            0 <= i < r.len() ==> {
                &&& self.half_edges.dom().contains(#[trigger] r[i])
                &&& self.origin(r[i]) == v
            }
        &&& forall|i: int| 0 <= i < r.len() ==> #[trigger] self.ring_step(r, i)
    }

    /// Whether the half-edge at place `i` of `r` is followed, in the
    /// rotation about its origin, by the one at the next place.
    pub open spec fn ring_step(self, r: Seq<HalfEdgeHandle>, i: int) -> bool {
        self.rot(r[i]) == r[cyc_next(i, r.len() as int)]
    }

    /// Whether the half-edge at place `i` of `l` has the one at the next
    /// place as its `next`.
    pub open spec fn loop_step(self, l: Seq<HalfEdgeHandle>, i: int) -> bool {
        self.half_edges[l[i]].next == l[cyc_next(i, l.len() as int)]
    }

    /// What holds of every vertex: its ring is a rotation cycle that begins
    /// at its representative, and is empty if the vertex is isolated.
    pub open spec fn vertex_ok(self, v: VertexHandle) -> bool {
        let r = self.rings[v];
        &&& self.rings.dom().contains(v)
        &&& self.vertices[v] == (if r.len() == 0 {
            None
        } else {
            Some(r[0])
        })
        &&& self.ring_cycle(v, r)
    }

    /// What holds of every edge: its representative is one of its own
    /// half-edges.
    pub open spec fn edge_ok(self, e: EdgeHandle) -> bool {
        &&& self.half_edges.dom().contains(self.edges[e])
        &&& self.half_edges[self.edges[e]].edge == e
    }

    /// Whether `l` lists half-edges that lie on face `f`, each followed by
    /// its `next`, the last by the first.
    pub open spec fn loop_cycle(self, f: FaceHandle, l: Seq<HalfEdgeHandle>) -> bool {
        &&& l.no_duplicates()
        &&& forall|i: int|
            0 <= i < l.len() ==> {
                &&& self.half_edges.dom().contains(#[trigger] l[i])
                &&& self.half_edges[l[i]].face == Some(f)
            }
        &&& forall|i: int| 0 <= i < l.len() ==> #[trigger] self.loop_step(l, i)
    }

    /// What holds of every face: its loop is a cycle of at least two
    /// half-edges that begins at its representative.
    pub open spec fn face_ok(self, f: FaceHandle) -> bool {
        let l = self.loops[f];
        &&& self.loops.dom().contains(f)
        &&& l.len() >= 2
        &&& l[0] == self.faces[f]
        &&& self.loop_cycle(f, l)
    }

    /// Two half-edges of the graph with the same origin and the same target
    /// are one: at most one edge joins two vertices.
    pub open spec fn simple(self) -> bool {
        forall|a: HalfEdgeHandle, b: HalfEdgeHandle|
            #![trigger self.has(a), self.has(b)]
            self.has(a) && self.has(b) && self.origin(a) == self.origin(b) && self.target(a)
                == self.target(b) ==> a == b
    }

    /// Two half-edges of the graph that belong to one edge are the same or
    /// each other's pair: an edge has exactly two half-edges.
    pub open spec fn edges_paired(self) -> bool {
        forall|a: HalfEdgeHandle, b: HalfEdgeHandle|
            #![trigger self.has(a), self.has(b)]
            self.has(a) && self.has(b) && self.edge(a) == self.edge(b) ==> a == b || b
                == self.pair(a)
    }

    /// The graph is well formed: every entity obeys the invariants of its
    /// kind.
    #[verifier::opaque]
    pub open spec fn wf(self) -> bool {
        &&& self.rings.dom() == self.vertices.dom()
        &&& self.loops.dom() == self.faces.dom()
        &&& forall|h: HalfEdgeHandle| #[trigger] self.has(h) ==> self.half_edge_ok(h)
        &&& forall|v: VertexHandle| #[trigger] self.has_vertex(v) ==> self.vertex_ok(v)
        &&& forall|e: EdgeHandle| #[trigger] self.has_edge(e) ==> self.edge_ok(e)
        &&& forall|f: FaceHandle| #[trigger] self.has_face(f) ==> self.face_ok(f)
        &&& self.simple()
        &&& self.edges_paired()
    }

    /// The half-edge from `v1` to `v2`, if the graph has one.
    pub open spec fn half_edge_between(self, v1: VertexHandle, v2: VertexHandle) -> Option<
        HalfEdgeHandle,
    > {
        if exists|h: HalfEdgeHandle| self.joins(h, v1, v2) {
            Some(choose|h: HalfEdgeHandle| self.joins(h, v1, v2))
        } else {
            None
        }
    }

    /// Whether `h` is a half-edge of the graph that leads from `v1` to `v2`.
    pub open spec fn joins(self, h: HalfEdgeHandle, v1: VertexHandle, v2: VertexHandle) -> bool {
        self.has(h) && self.origin(h) == v1 && self.target(h) == v2
    }

    /// In a well-formed graph the links of a half-edge lead to half-edges
    /// and a vertex of the graph, and its origin is a vertex of the graph
    /// whose ring holds it.
    pub proof fn lemma_half_edge(self, h: HalfEdgeHandle)
        requires
            self.wf(),
            self.has(h),
        ensures
            self.half_edge_ok(h),
            self.has(self.pair(h)),
            self.has(self.next(h)),
            self.has(self.prev(h)),
            self.half_edge_ok(self.pair(h)),
            self.has_vertex(self.target(h)),
            self.has_vertex(self.origin(h)),
            self.vertex_ok(self.origin(h)),
            self.rings[self.origin(h)].contains(h),
            self.origin(h) != self.target(h),
            self.pair(h) != h,
    {
        reveal(Topology::wf);
        assert(self.has(self.pair(h)));
        assert(self.has_vertex(self.origin(h)));
    }

    /// In a well-formed graph every vertex has a ring that begins at its
    /// representative.
    pub proof fn lemma_vertex(self, v: VertexHandle)
        requires
            self.wf(),
            self.has_vertex(v),
        ensures
            self.vertex_ok(v),
    {
        reveal(Topology::wf);
    }

    /// In a well-formed graph the representative of an edge is one of its
    /// half-edges.
    pub proof fn lemma_edge(self, e: EdgeHandle)
        requires
            self.wf(),
            self.has_edge(e),
        ensures
            self.edge_ok(e),
            self.has(self.edges[e]),
    {
        reveal(Topology::wf);
    }

    /// In a well-formed graph every face has a loop that begins at its
    /// representative.
    pub proof fn lemma_face(self, f: FaceHandle)
        requires
            self.wf(),
            self.has_face(f),
        ensures
            self.face_ok(f),
            self.has(self.faces[f]),
    {
        reveal(Topology::wf);
        assert(self.loops[f][0] == self.faces[f]);
    }

    /// In a well-formed graph exactly the vertices have rings and exactly
    /// the faces have loops.
    pub proof fn lemma_domains(self)
        requires
            self.wf(),
        ensures
            self.rings.dom() == self.vertices.dom(),
            self.loops.dom() == self.faces.dom(),
    {
        reveal(Topology::wf);
    }

    /// The graph without entities is well formed.
    pub proof fn lemma_empty_wf()
        ensures
            Topology::empty().wf(),
    {
        reveal(Topology::wf);
    }

    /// A half-edge from `v1` to `v2` has a pair from `v2` to `v1`.
    pub proof fn lemma_joins_pair(self, h: HalfEdgeHandle, v1: VertexHandle, v2: VertexHandle)
        requires
            self.wf(),
            self.joins(h, v1, v2),
        ensures
            self.joins(self.pair(h), v2, v1),
    {
        self.lemma_half_edge(h);
    }

    /// A well-formed graph has at most one half-edge from `v1` to `v2`.
    pub proof fn lemma_between_unique(self, h: HalfEdgeHandle, v1: VertexHandle, v2: VertexHandle)
        requires
            self.wf(),
            self.joins(h, v1, v2),
        ensures
            self.half_edge_between(v1, v2) == Some(h),
    {
        reveal(Topology::wf);
        let c = choose|c: HalfEdgeHandle| self.joins(c, v1, v2);
        assert(self.has(c) && self.has(h));
    }

    /// Where no half-edge in the ring of `v1` points to `v2`, none leads
    /// from `v1` to `v2`.
    pub proof fn lemma_between_none(self, v1: VertexHandle, v2: VertexHandle)
        requires
            self.wf(),
            self.has_vertex(v1) ==> forall|i: int|
                0 <= i < self.rings[v1].len() ==> self.target(#[trigger] self.rings[v1][i]) != v2,
        ensures
            self.half_edge_between(v1, v2) is None,
    {
        if exists|h: HalfEdgeHandle| self.joins(h, v1, v2) {
            let h = choose|h: HalfEdgeHandle| self.joins(h, v1, v2);
            self.lemma_half_edge(h);
            self.lemma_vertex(v1);
            let i = choose|i: int| 0 <= i < self.rings[v1].len() && self.rings[v1][i] == h;
            assert(self.target(self.rings[v1][i]) != v2);
        }
    }

    /// The half-edge between two vertices exists in both directions or in
    /// neither.
    pub proof fn lemma_between_symmetric(self, v1: VertexHandle, v2: VertexHandle)
        requires
            self.wf(),
        ensures
            self.half_edge_between(v1, v2) is Some <==> self.half_edge_between(v2, v1) is Some,
    {
        if self.half_edge_between(v1, v2) is Some {
            let h = choose|h: HalfEdgeHandle| self.joins(h, v1, v2);
            self.lemma_joins_pair(h, v1, v2);
        }
        if self.half_edge_between(v2, v1) is Some {
            let h = choose|h: HalfEdgeHandle| self.joins(h, v2, v1);
            self.lemma_joins_pair(h, v2, v1);
        }
    }

    /// Whether `i` is the first place of `s` that holds a half-edge on no
    /// face.
    pub open spec fn is_first_free(self, s: Seq<HalfEdgeHandle>, i: int) -> bool {
        &&& 0 <= i < s.len()
        &&& self.is_free(s[i])
        &&& forall|j: int| 0 <= j < i ==> !self.is_free(#[trigger] s[j])
    }

    /// The first place of `s` that holds a half-edge on no face, if any.
    pub open spec fn free_place(self, s: Seq<HalfEdgeHandle>) -> Option<int> {
        if exists|i: int| self.is_first_free(s, i) {
            Some(choose|i: int| self.is_first_free(s, i))
        } else {
            None
        }
    }

    /// The first free place is unique.
    pub proof fn lemma_free_place_some(self, s: Seq<HalfEdgeHandle>, i: int)
        requires
            self.is_first_free(s, i),
        ensures
            self.free_place(s) == Some(i),
    {
        let c = choose|c: int| self.is_first_free(s, c);
        if c < i {
            assert(!self.is_free(s[c]));
        }
        if i < c {
            assert(!self.is_free(s[i]));
        }
    }

    /// Where every half-edge of `s` lies on a face, `s` has no free place.
    pub proof fn lemma_free_place_none(self, s: Seq<HalfEdgeHandle>)
        requires
            forall|j: int| 0 <= j < s.len() ==> !self.is_free(#[trigger] s[j]),
        ensures
            self.free_place(s) is None,
    {
    }

    /// What a free place is.
    pub proof fn lemma_free_place(self, s: Seq<HalfEdgeHandle>)
        ensures
            self.free_place(s) matches Some(i) ==> self.is_first_free(s, i),
            self.free_place(s) is None ==> forall|j: int|
                0 <= j < s.len() ==> !self.is_free(#[trigger] s[j]),
    {
        if self.free_place(s) is None {
            assert forall|j: int| 0 <= j < s.len() implies !self.is_free(#[trigger] s[j]) by {
                if self.is_free(s[j]) {
                    self.lemma_some_free(s, j);
                }
            }
        }
    }

    /// A sequence that holds a free half-edge at `j` has a first free place
    /// at or before `j`.
    pub proof fn lemma_some_free(self, s: Seq<HalfEdgeHandle>, j: int)
        requires
            0 <= j < s.len(),
            self.is_free(s[j]),
        ensures
            exists|i: int| 0 <= i <= j && self.is_first_free(s, i),
        decreases j,
    {
        if exists|k: int| 0 <= k < j && self.is_free(s[k]) {
            let k = choose|k: int| 0 <= k < j && self.is_free(s[k]);
            self.lemma_some_free(s, k);
        } else {
            assert(self.is_first_free(s, j));
        }
    }

    /// A ring begun at another of its places is a ring still.
    pub proof fn lemma_rotated_ring(self, v: VertexHandle, s: Seq<HalfEdgeHandle>, p: int)
        requires
            self.ring_cycle(v, s),
            0 <= p < s.len(),
        ensures
            self.ring_cycle(v, rotated(s, p)),
    {
        lemma_rotated(s, p);
        let r = rotated(s, p);
        let n = s.len() as int;
        assert forall|i: int| 0 <= i < r.len() implies {
            &&& self.half_edges.dom().contains(#[trigger] r[i])
            &&& self.origin(r[i]) == v
        } by {
            let k = rotated_place(i, p, n);
            assert(r[i] == s[k]);
            assert(self.half_edges.dom().contains(s[k]));
        }
        assert forall|i: int| 0 <= i < r.len() implies #[trigger] self.ring_step(r, i) by {
            let k = rotated_place(i, p, n);
            assert(r[i] == s[k]);
            assert(self.ring_step(s, k));
            assert(r[cyc_next(i, n)] == s[rotated_place(cyc_next(i, n), p, n)]);
        }
    }

    /// The ring of the origin of `h`, begun at `h`.
    pub open spec fn ring_from(self, h: HalfEdgeHandle) -> Seq<HalfEdgeHandle> {
        let s = self.rings[self.origin(h)];
        rotated(s, place_of(s, h))
    }

    /// What the ring begun at a half-edge is.
    pub proof fn lemma_ring_from(self, h: HalfEdgeHandle)
        requires
            self.wf(),
            self.has(h),
        ensures
            self.ring_cycle(self.origin(h), self.ring_from(h)),
            self.ring_from(h).len() == self.rings[self.origin(h)].len(),
            self.ring_from(h).len() > 0,
            self.ring_from(h)[0] == h,
            forall|x: HalfEdgeHandle|
                self.ring_from(h).contains(x) <==> self.rings[self.origin(h)].contains(x),
    {
        self.lemma_half_edge(h);
        let s = self.rings[self.origin(h)];
        let p = place_of(s, h);
        lemma_rotated(s, p);
        self.lemma_rotated_ring(self.origin(h), s, p);
    }

    /// The ring begun at the representative of a vertex is the ring of the
    /// vertex.
    pub proof fn lemma_ring_from_representative(self, v: VertexHandle)
        requires
            self.wf(),
            self.has_vertex(v),
            self.vertices[v] is Some,
        ensures
            self.ring_from(self.vertices[v]->Some_0) == self.rings[v],
            self.has(self.vertices[v]->Some_0),
            self.origin(self.vertices[v]->Some_0) == v,
    {
        self.lemma_vertex(v);
        let s = self.rings[v];
        let h = s[0];
        assert(self.has(s[0]));
        lemma_rotated(s, 0);
        let p = place_of(s, h);
        assert(s[p] == s[0]);
    }

    /// The representative of a vertex, where it has one, is a half-edge of
    /// the graph.
    pub proof fn lemma_ring_from_representative_opt(self, v: VertexHandle)
        requires
            self.wf(),
            self.has_vertex(v),
        ensures
            self.vertices[v] matches Some(h) ==> self.has(h) && self.origin(h) == v,
    {
        if self.vertices[v] is Some {
            self.lemma_ring_from_representative(v);
        }
    }

    /// The first free half-edge of the ring begun at `h`, if any.
    pub open spec fn free_from(self, h: HalfEdgeHandle) -> Option<HalfEdgeHandle> {
        match self.free_place(self.ring_from(h)) {
            Some(i) => Some(self.ring_from(h)[i]),
            None => None,
        }
    }

    /// Whether a half-edge lies on no face.
    pub open spec fn is_free(self, h: HalfEdgeHandle) -> bool {
        self.half_edges[h].face is None
    }
}

} // verus!
