//! The changes that the builder makes to a graph, stated on the model, and
//! the proofs that each of them keeps a well-formed graph well formed.

use crate::handle::{EdgeHandle, FaceHandle, HalfEdgeHandle, VertexHandle};
use crate::topology::{cyc_next, Links, Topology};
use vstd::prelude::*;

verus! {

/// The ring `s` with `x` put in just before place `i`. The first place
/// stays first: put in before place 0, `x` comes last.
pub open spec fn ring_with(s: Seq<HalfEdgeHandle>, i: int, x: HalfEdgeHandle) -> Seq<
    HalfEdgeHandle,
> {
    let k = if i == 0 {
        s.len() as int
    } else {
        i
    };
    Seq::new(
        s.len() + 1,
        |j: int|
            if j < k {
                s[j]
            } else if j == k {
                x
            } else {
                s[j - 1]
            },
    )
}

impl Topology {
    /// The graph with one more vertex `v`, isolated.
    pub open spec fn with_vertex(self, v: VertexHandle) -> Topology {
        Topology {
            vertices: self.vertices.insert(v, None),
            rings: self.rings.insert(v, Seq::empty()),
            ..self
        }
    }

    /// Adding an isolated vertex keeps the graph well formed.
    pub proof fn lemma_with_vertex_wf(self, v: VertexHandle)
        requires
            self.wf(),
            !self.has_vertex(v),
        ensures
            self.with_vertex(v).wf(),
    {
        reveal(Topology::wf);
        let t = self.with_vertex(v);
        assert(t.rings.dom() =~= t.vertices.dom());
        assert forall|h: HalfEdgeHandle| #[trigger] t.has(h) implies t.half_edge_ok(h) by {
            assert(self.has(h));
            assert(self.has(self.pair(h)));
        }
        assert forall|u: VertexHandle| #[trigger] t.has_vertex(u) implies t.vertex_ok(u) by {
            if u != v {
                assert(self.has_vertex(u));
                let r = self.rings[u];
                assert forall|i: int| 0 <= i < r.len() implies #[trigger] t.ring_step(r, i) by {
                    assert(self.ring_step(r, i));
                }
            }
        }
        assert forall|e: EdgeHandle| #[trigger] t.has_edge(e) implies t.edge_ok(e) by {
            assert(self.has_edge(e));
        }
        assert forall|f: FaceHandle| #[trigger] t.has_face(f) implies t.face_ok(f) by {
            assert(self.has_face(f));
            let l = self.loops[f];
            assert forall|i: int| 0 <= i < l.len() implies #[trigger] t.loop_step(l, i) by {
                assert(self.loop_step(l, i));
            }
        }
        assert(t.simple()) by {
            assert forall|a: HalfEdgeHandle, b: HalfEdgeHandle|
                #![trigger t.has(a), t.has(b)]
                t.has(a) && t.has(b) && t.origin(a) == t.origin(b) && t.target(a) == t.target(
                    b,
                ) implies a == b by {
                assert(self.has(a) && self.has(b));
            }
        }
        assert(t.edges_paired()) by {
            assert forall|a: HalfEdgeHandle, b: HalfEdgeHandle|
                #![trigger t.has(a), t.has(b)]
                t.has(a) && t.has(b) && t.edge(a) == t.edge(b) implies a == b || b == t.pair(
                    a,
                ) by {
                assert(self.has(a) && self.has(b));
            }
        }
    }

    /// Whether a new half-edge can leave `v`: `v` is isolated, or some
    /// half-edge of its ring lies on no face.
    pub open spec fn can_attach(self, v: VertexHandle) -> bool {
        self.rings[v].len() == 0 || self.free_place(self.rings[v]) is Some
    }

    /// The ring of `v` after a new half-edge `x` has been attached: `x`
    /// alone if `v` was isolated, else `x` put in before the first free
    /// half-edge of the ring.
    pub open spec fn ring_attached(self, v: VertexHandle, x: HalfEdgeHandle) -> Seq<
        HalfEdgeHandle,
    > {
        match self.free_place(self.rings[v]) {
            Some(i) => ring_with(self.rings[v], i, x),
            None => seq![x],
        }
    }

    /// The half-edges after `h_out`, which leaves `v`, and its pair `h_in`
    /// have been spliced into the loop that passes the first free
    /// half-edge of the ring of `v`. The links of `h_out` and `h_in`
    /// themselves are not set here.
    pub open spec fn spliced_at(
        self,
        m: Map<HalfEdgeHandle, Links>,
        v: VertexHandle,
        h_out: HalfEdgeHandle,
        h_in: HalfEdgeHandle,
    ) -> Map<HalfEdgeHandle, Links> {
        match self.free_place(self.rings[v]) {
            Some(i) => {
                let e1 = self.rings[v][i];
                let e2 = self.prev(e1);
                m.insert(e2, Links { next: h_out, ..self.half_edges[e2] }).insert(
                    e1,
                    Links { prev: h_in, ..self.half_edges[e1] },
                )
            },
            None => m,
        }
    }

    /// The graph with one more edge `e` between `v1` and `v2`, made of the
    /// half-edge `h1` from `v1` to `v2` and its pair `h2`. At each end the
    /// new half-edges are spliced in before the first free half-edge of
    /// the ring; an isolated end gets the half-edge that leaves it as its
    /// representative.
    pub open spec fn with_edge(
        self,
        v1: VertexHandle,
        v2: VertexHandle,
        e: EdgeHandle,
        h1: HalfEdgeHandle,
        h2: HalfEdgeHandle,
    ) -> Topology {
        let s1 = self.rings[v1];
        let s2 = self.rings[v2];
        let l1 = Links {
            pair: h2,
            next: match self.free_place(s2) {
                Some(i) => s2[i],
                None => h2,
            },
            prev: match self.free_place(s1) {
                Some(i) => self.prev(s1[i]),
                None => h2,
            },
            vertex: v2,
            edge: e,
            face: None,
        };
        let l2 = Links {
            pair: h1,
            next: match self.free_place(s1) {
                Some(i) => s1[i],
                None => h1,
            },
            prev: match self.free_place(s2) {
                Some(i) => self.prev(s2[i]),
                None => h1,
            },
            vertex: v1,
            edge: e,
            face: None,
        };
        Topology {
            vertices: self.vertices.insert(v1, Some(self.ring_attached(v1, h1)[0])).insert(
                v2,
                Some(self.ring_attached(v2, h2)[0]),
            ),
            edges: self.edges.insert(e, h1),
            faces: self.faces,
            half_edges: self.spliced_at(
                self.spliced_at(self.half_edges, v1, h1, h2),
                v2,
                h2,
                h1,
            ).insert(h1, l1).insert(h2, l2),
            rings: self.rings.insert(v1, self.ring_attached(v1, h1)).insert(
                v2,
                self.ring_attached(v2, h2),
            ),
            loops: self.loops,
        }
    }

    /// Whether an edge can be added between `v1` and `v2`: they are two
    /// vertices of the graph that no edge joins yet, and a new half-edge
    /// can leave each of them.
    pub open spec fn can_join(self, v1: VertexHandle, v2: VertexHandle) -> bool {
        &&& self.has_vertex(v1)
        &&& self.has_vertex(v2)
        &&& v1 != v2
        &&& self.half_edge_between(v1, v2) is None
        &&& self.can_attach(v1)
        &&& self.can_attach(v2)
    }

    /// What adding an edge between `v1` and `v2` asks of the graph and of
    /// the new handles.
    pub open spec fn edge_fits(
        self,
        v1: VertexHandle,
        v2: VertexHandle,
        e: EdgeHandle,
        h1: HalfEdgeHandle,
        h2: HalfEdgeHandle,
    ) -> bool {
        &&& self.can_join(v1, v2)
        &&& !self.has_edge(e)
        &&& !self.has(h1)
        &&& !self.has(h2)
        &&& h1 != h2
    }

    /// The free half-edge before which a new half-edge is put into the
    /// ring of `v`, if the ring has one.
    pub open spec fn attach_before(self, v: VertexHandle) -> Option<HalfEdgeHandle> {
        match self.free_place(self.rings[v]) {
            Some(i) => Some(self.rings[v][i]),
            None => None,
        }
    }

    /// The half-edge after which a new half-edge is put into the loop at
    /// `v`: the one that precedes `attach_before(v)`.
    pub open spec fn attach_after(self, v: VertexHandle) -> Option<HalfEdgeHandle> {
        match self.free_place(self.rings[v]) {
            Some(i) => Some(self.prev(self.rings[v][i])),
            None => None,
        }
    }

    /// What holds at the place where a new half-edge is attached to `v`.
    pub proof fn lemma_attach_site(self, v: VertexHandle)
        requires
            self.wf(),
            self.has_vertex(v),
            self.free_place(self.rings[v]) is Some,
        ensures
            ({
                let s = self.rings[v];
                let i = self.free_place(s)->Some_0;
                let e1 = s[i];
                let e2 = self.prev(e1);
                let p = if i == 0 {
                    s.len() - 1
                } else {
                    i - 1
                };
                &&& 0 <= i < s.len()
                &&& self.has(e1)
                &&& self.has(e2)
                &&& self.is_free(e1)
                &&& self.is_free(e2)
                &&& self.origin(e1) == v
                &&& self.target(e2) == v
                &&& self.next(e2) == e1
                &&& e1 != e2
                &&& s[p] == self.pair(e2)
                &&& forall|j: int| 0 <= j < s.len() && j != p ==> self.pair(#[trigger] s[j]) != e2
            }),
    {
        let s = self.rings[v];
        self.lemma_free_place(s);
        let i = self.free_place(s)->Some_0;
        let e1 = s[i];
        let e2 = self.prev(e1);
        self.lemma_vertex(v);
        assert(self.has(s[i]));
        self.lemma_half_edge(e1);
        self.lemma_half_edge(e2);
        let q = self.pair(e2);
        self.lemma_half_edge(q);
        assert(self.origin(q) == v);
        let j = choose|j: int| 0 <= j < s.len() && s[j] == q;
        assert(self.ring_step(s, j));
        assert forall|k: int| 0 <= k < s.len() && k != j implies self.pair(#[trigger] s[k])
            != e2 by {
            assert(self.has(s[k]));
            self.lemma_half_edge(s[k]);
        }
    }

    /// A ring stays a ring when a new half-edge is put in between two of
    /// its neighbours: `self` is the graph after the change, `s` the ring
    /// before it, `x` the new half-edge, put in before place `i`.
    pub proof fn lemma_ring_with(
        self,
        v: VertexHandle,
        s: Seq<HalfEdgeHandle>,
        i: int,
        x: HalfEdgeHandle,
    )
        requires
            0 <= i < s.len(),
            s.no_duplicates(),
            !s.contains(x),
            self.has(x),
            self.origin(x) == v,
            self.rot(x) == s[i],
            forall|j: int| 0 <= j < s.len() ==> self.has(#[trigger] s[j]) && self.origin(s[j]) == v,
            forall|j: int| 0 <= j < s.len() ==> #[trigger] self.ring_step_but(s, j, i, x),
        ensures
            self.ring_cycle(v, ring_with(s, i, x)),
            ring_with(s, i, x)[0] == s[0],
            ring_with(s, i, x).contains(x),
            forall|j: int| 0 <= j < s.len() ==> ring_with(s, i, x).contains(#[trigger] s[j]),
    {
        let r = ring_with(s, i, x);
        let n = s.len() as int;
        let k = if i == 0 {
            n
        } else {
            i
        };
        assert(r[k] == x);
        assert forall|j: int| 0 <= j < s.len() implies r.contains(#[trigger] s[j]) by {
            if j < k {
                assert(r[j] == s[j]);
            } else {
                assert(r[j + 1] == s[j]);
            }
        }
        assert forall|a: int, b: int| 0 <= a < r.len() && 0 <= b < r.len() && a != b implies r[a]
            != r[b] by {
            let a0 = if a < k {
                a
            } else {
                a - 1
            };
            let b0 = if b < k {
                b
            } else {
                b - 1
            };
            if a == k {
                assert(s[b0] == r[b]);
            } else if b == k {
                assert(s[a0] == r[a]);
            } else {
                assert(s[a0] != s[b0]);
            }
        }
        assert forall|j: int| 0 <= j < r.len() implies {
            &&& self.half_edges.dom().contains(#[trigger] r[j])
            &&& self.origin(r[j]) == v
        } by {
            if j < k {
                assert(r[j] == s[j]);
                assert(self.has(s[j]));
            } else if j == k {
            } else {
                assert(r[j] == s[j - 1]);
                assert(self.has(s[j - 1]));
            }
        }
        assert forall|j: int| 0 <= j < r.len() implies #[trigger] self.ring_step(r, j) by {
            let j2 = cyc_next(j, n + 1);
            if j < k {
                assert(r[j] == s[j]);
                assert(self.ring_step_but(s, j, i, x));
                if j + 1 < k {
                    assert(r[j2] == s[j + 1]);
                }
            } else if j == k {
                if k == n {
                    assert(r[j2] == s[0]);
                } else {
                    assert(r[j2] == s[k]);
                }
            } else {
                assert(r[j] == s[j - 1]);
                assert(self.ring_step_but(s, j - 1, i, x));
                if j < n {
                    assert(r[j2] == s[j]);
                }
            }
        }
    }

    /// Whether the half-edge at place `j` of `s` is followed, in the
    /// rotation, by the one at the next place, or by `x` where the next
    /// place is `i`.
    pub open spec fn ring_step_but(
        self,
        s: Seq<HalfEdgeHandle>,
        j: int,
        i: int,
        x: HalfEdgeHandle,
    ) -> bool {
        self.rot(s[j]) == (if cyc_next(j, s.len() as int) == i {
            x
        } else {
            s[cyc_next(j, s.len() as int)]
        })
    }

    /// The links of the graph after an edge has been added, half-edge by
    /// half-edge.
    pub proof fn lemma_with_edge_links(
        self,
        v1: VertexHandle,
        v2: VertexHandle,
        e: EdgeHandle,
        h1: HalfEdgeHandle,
        h2: HalfEdgeHandle,
    )
        requires
            self.wf(),
            self.edge_fits(v1, v2, e, h1, h2),
        ensures
            ({
                let t = self.with_edge(v1, v2, e, h1, h2);
                &&& t.vertices == self.vertices.insert(
                    v1,
                    Some(self.ring_attached(v1, h1)[0]),
                ).insert(v2, Some(self.ring_attached(v2, h2)[0]))
                &&& t.edges == self.edges.insert(e, h1)
                &&& t.faces == self.faces
                &&& t.loops == self.loops
                &&& t.rings == self.rings.insert(v1, self.ring_attached(v1, h1)).insert(
                    v2,
                    self.ring_attached(v2, h2),
                )
                &&& t.half_edges.dom() == self.half_edges.dom().insert(h1).insert(h2)
                &&& t.half_edges[h1] == Links {
                    pair: h2,
                    next: match self.attach_before(v2) {
                        Some(e1) => e1,
                        None => h2,
                    },
                    prev: match self.attach_after(v1) {
                        Some(e2) => e2,
                        None => h2,
                    },
                    vertex: v2,
                    edge: e,
                    face: None,
                }
                &&& t.half_edges[h2] == Links {
                    pair: h1,
                    next: match self.attach_before(v1) {
                        Some(e1) => e1,
                        None => h1,
                    },
                    prev: match self.attach_after(v2) {
                        Some(e2) => e2,
                        None => h1,
                    },
                    vertex: v1,
                    edge: e,
                    face: None,
                }
                &&& forall|h: HalfEdgeHandle| #[trigger]
                    self.has(h) ==> t.half_edges[h] == Links {
                        next: if self.attach_after(v1) == Some(h) {
                            h1
                        } else if self.attach_after(v2) == Some(h) {
                            h2
                        } else {
                            self.next(h)
                        },
                        prev: if self.attach_before(v1) == Some(h) {
                            h2
                        } else if self.attach_before(v2) == Some(h) {
                            h1
                        } else {
                            self.prev(h)
                        },
                        ..self.half_edges[h]
                    }
                &&& (self.attach_before(v1) matches Some(a) ==> self.attach_before(v2) != Some(a)
                    && self.attach_after(v2) != Some(a) && self.attach_after(v1) != Some(a))
                &&& (self.attach_after(v1) matches Some(a) ==> self.attach_before(v2) != Some(a)
                    && self.attach_after(v2) != Some(a))
                &&& (self.attach_before(v2) matches Some(a) ==> self.attach_after(v2) != Some(a))
            }),
    {
        reveal(Topology::with_edge);
        let t = self.with_edge(v1, v2, e, h1, h2);
        if self.free_place(self.rings[v1]) is Some {
            self.lemma_attach_site(v1);
            let a = self.attach_before(v1)->Some_0;
            let b = self.attach_after(v1)->Some_0;
            self.lemma_half_edge(a);
            self.lemma_half_edge(b);
        }
        if self.free_place(self.rings[v2]) is Some {
            self.lemma_attach_site(v2);
            let a = self.attach_before(v2)->Some_0;
            let b = self.attach_after(v2)->Some_0;
            self.lemma_half_edge(a);
            self.lemma_half_edge(b);
        }
        if self.attach_before(v1) is Some && self.attach_after(v2) is Some {
            let a = self.attach_before(v1)->Some_0;
            if self.attach_after(v2) == Some(a) {
                assert(self.joins(a, v1, v2));
            }
        }
        if self.attach_before(v2) is Some && self.attach_after(v1) is Some {
            let a = self.attach_before(v2)->Some_0;
            if self.attach_after(v1) == Some(a) {
                assert(self.joins(a, v2, v1));
                self.lemma_joins_pair(a, v2, v1);
            }
        }
        assert(t.half_edges.dom() =~= self.half_edges.dom().insert(h1).insert(h2));
    }

    /// The ring of a vertex to which a new half-edge `x` has been attached
    /// is a ring of the graph `t` after the change.
    pub proof fn lemma_attached_ring(self, t: Topology, v: VertexHandle, x: HalfEdgeHandle)
        requires
            self.wf(),
            self.has_vertex(v),
            self.can_attach(v),
            !self.has(x),
            t.has(x),
            t.origin(x) == v,
            t.rot(x) == (match self.attach_before(v) {
                Some(e1) => e1,
                None => x,
            }),
            forall|h: HalfEdgeHandle|
                #![trigger self.has(h)]
                self.has(h) && self.origin(h) == v ==> {
                    &&& t.has(h)
                    &&& t.origin(h) == v
                    &&& t.rot(h) == (if self.attach_after(v) == Some(self.pair(h)) {
                        x
                    } else {
                        self.rot(h)
                    })
                },
            t.rings.dom().contains(v),
            t.rings[v] == self.ring_attached(v, x),
            t.vertices[v] == Some(self.ring_attached(v, x)[0]),
        ensures
            t.vertex_ok(v),
            t.rings[v].contains(x),
            forall|j: int|
                0 <= j < self.rings[v].len() ==> t.rings[v].contains(#[trigger] self.rings[v][j]),
    {
        let s = self.rings[v];
        self.lemma_vertex(v);
        if self.free_place(s) is Some {
            self.lemma_attach_site(v);
            let i = self.free_place(s)->Some_0;
            if s.contains(x) {
                let j = choose|j: int| 0 <= j < s.len() && s[j] == x;
                assert(self.has(s[j]));
            }
            assert forall|j: int| 0 <= j < s.len() implies t.has(#[trigger] s[j]) && t.origin(s[j])
                == v by {
                assert(self.has(s[j]));
                self.lemma_half_edge(s[j]);
            }
            assert forall|j: int| 0 <= j < s.len() implies #[trigger] t.ring_step_but(
                s,
                j,
                i,
                x,
            ) by {
                assert(self.has(s[j]));
                self.lemma_half_edge(s[j]);
                assert(self.ring_step(s, j));
            }
            t.lemma_ring_with(v, s, i, x);
        } else {
            let r = seq![x];
            assert(t.rings[v] == r);
            assert(r[0] == x);
            assert(r.contains(x));
        }
    }

    /// Adding an edge keeps the graph well formed.
    pub proof fn lemma_with_edge_wf(
        self,
        v1: VertexHandle,
        v2: VertexHandle,
        e: EdgeHandle,
        h1: HalfEdgeHandle,
        h2: HalfEdgeHandle,
    )
        requires
            self.wf(),
            self.edge_fits(v1, v2, e, h1, h2),
        ensures
            self.with_edge(v1, v2, e, h1, h2).wf(),
    {
        let t = self.with_edge(v1, v2, e, h1, h2);
        self.lemma_with_edge_links(v1, v2, e, h1, h2);
        self.lemma_with_edge_rings(v1, v2, e, h1, h2);
        self.lemma_with_edge_half_edges(v1, v2, e, h1, h2);
        self.lemma_with_edge_rest(v1, v2, e, h1, h2);
        assert(t.rings.dom() =~= t.vertices.dom()) by {
            reveal(Topology::wf);
        }
        reveal(Topology::wf);
    }

    /// After an edge has been added, every vertex has a ring that holds
    /// what it held before and, at the ends of the edge, the new half-edge
    /// that leaves the vertex.
    pub proof fn lemma_with_edge_rings(
        self,
        v1: VertexHandle,
        v2: VertexHandle,
        e: EdgeHandle,
        h1: HalfEdgeHandle,
        h2: HalfEdgeHandle,
    )
        requires
            self.wf(),
            self.edge_fits(v1, v2, e, h1, h2),
        ensures
            ({
                let t = self.with_edge(v1, v2, e, h1, h2);
                &&& forall|v: VertexHandle| #[trigger] t.has_vertex(v) ==> t.vertex_ok(v)
                &&& t.rings[v1].contains(h1)
                &&& t.rings[v2].contains(h2)
                &&& forall|v: VertexHandle, j: int|
                    self.has_vertex(v) && 0 <= j < self.rings[v].len() ==> t.rings[v].contains(
                        #[trigger] self.rings[v][j],
                    )
            }),
    {
        let t = self.with_edge(v1, v2, e, h1, h2);
        self.lemma_with_edge_links(v1, v2, e, h1, h2);
        if self.free_place(self.rings[v1]) is Some {
            self.lemma_attach_site(v1);
        }
        if self.free_place(self.rings[v2]) is Some {
            self.lemma_attach_site(v2);
        }
        assert(t.has(h1) && t.has(h2));
        assert forall|h: HalfEdgeHandle| #![trigger self.has(h)] self.has(h) implies {
            &&& t.has(h)
            &&& t.origin(h) == self.origin(h)
            &&& t.rot(h) == (if self.attach_after(v1) == Some(self.pair(h)) {
                h1
            } else if self.attach_after(v2) == Some(self.pair(h)) {
                h2
            } else {
                self.rot(h)
            })
        } by {
            self.lemma_half_edge(h);
            assert(self.has(self.pair(h)));
        }
        self.lemma_attached_ring(t, v1, h1);
        self.lemma_attached_ring(t, v2, h2);
        assert forall|v: VertexHandle| #[trigger] t.has_vertex(v) implies t.vertex_ok(v) by {
            if v != v1 && v != v2 {
                assert(self.has_vertex(v));
                self.lemma_vertex(v);
                let r = self.rings[v];
                assert(t.rings[v] == r);
                assert forall|i: int| 0 <= i < r.len() implies {
                    &&& t.half_edges.dom().contains(#[trigger] r[i])
                    &&& t.origin(r[i]) == v
                } by {
                    assert(self.has(r[i]));
                    self.lemma_half_edge(r[i]);
                }
                assert forall|i: int| 0 <= i < r.len() implies #[trigger] t.ring_step(r, i) by {
                    assert(self.has(r[i]));
                    self.lemma_half_edge(r[i]);
                    assert(self.ring_step(r, i));
                }
            }
        }
        assert forall|v: VertexHandle, j: int|
            self.has_vertex(v) && 0 <= j < self.rings[v].len() implies t.rings[v].contains(
            #[trigger] self.rings[v][j],
        ) by {
            if v != v1 && v != v2 {
                assert(t.rings[v][j] == self.rings[v][j]);
            }
        }
    }

    /// After an edge has been added, every half-edge obeys the invariants.
    pub proof fn lemma_with_edge_half_edges(
        self,
        v1: VertexHandle,
        v2: VertexHandle,
        e: EdgeHandle,
        h1: HalfEdgeHandle,
        h2: HalfEdgeHandle,
    )
        requires
            self.wf(),
            self.edge_fits(v1, v2, e, h1, h2),
        ensures
            ({
                let t = self.with_edge(v1, v2, e, h1, h2);
                forall|h: HalfEdgeHandle| #[trigger] t.has(h) ==> t.half_edge_ok(h)
            }),
    {
        let t = self.with_edge(v1, v2, e, h1, h2);
        self.lemma_with_edge_links(v1, v2, e, h1, h2);
        self.lemma_with_edge_rings(v1, v2, e, h1, h2);
        if self.free_place(self.rings[v1]) is Some {
            self.lemma_attach_site(v1);
            self.lemma_half_edge(self.attach_before(v1)->Some_0);
            self.lemma_half_edge(self.attach_after(v1)->Some_0);
        }
        if self.free_place(self.rings[v2]) is Some {
            self.lemma_attach_site(v2);
            self.lemma_half_edge(self.attach_before(v2)->Some_0);
            self.lemma_half_edge(self.attach_after(v2)->Some_0);
        }
        assert(t.half_edge_ok(h1));
        assert(t.half_edge_ok(h2));
        assert forall|h: HalfEdgeHandle| #[trigger] t.has(h) implies t.half_edge_ok(h) by {
            if h != h1 && h != h2 {
                assert(self.has(h));
                self.lemma_half_edge(h);
                let l = self.half_edges[h];
                self.lemma_half_edge(l.pair);
                self.lemma_half_edge(l.next);
                self.lemma_half_edge(l.prev);
                self.lemma_half_edge(self.pair(l.next));
                let i = choose|i: int|
                    0 <= i < self.rings[self.origin(h)].len() && self.rings[self.origin(h)][i]
                        == h;
                assert(t.rings[self.origin(h)].contains(self.rings[self.origin(h)][i]));
            }
        }
    }

    /// After an edge has been added, the edges and faces obey the
    /// invariants, and no two half-edges run in parallel.
    pub proof fn lemma_with_edge_rest(
        self,
        v1: VertexHandle,
        v2: VertexHandle,
        e: EdgeHandle,
        h1: HalfEdgeHandle,
        h2: HalfEdgeHandle,
    )
        requires
            self.wf(),
            self.edge_fits(v1, v2, e, h1, h2),
        ensures
            ({
                let t = self.with_edge(v1, v2, e, h1, h2);
                &&& forall|g: EdgeHandle| #[trigger] t.has_edge(g) ==> t.edge_ok(g)
                &&& forall|f: FaceHandle| #[trigger] t.has_face(f) ==> t.face_ok(f)
                &&& t.simple()
                &&& t.edges_paired()
                &&& t.loops.dom() == t.faces.dom()
            }),
    {
        reveal(Topology::wf);
        let t = self.with_edge(v1, v2, e, h1, h2);
        self.lemma_with_edge_links(v1, v2, e, h1, h2);
        if self.free_place(self.rings[v1]) is Some {
            self.lemma_attach_site(v1);
        }
        if self.free_place(self.rings[v2]) is Some {
            self.lemma_attach_site(v2);
        }
        assert forall|g: EdgeHandle| #[trigger] t.has_edge(g) implies t.edge_ok(g) by {
            if g != e {
                assert(self.has_edge(g));
                self.lemma_edge(g);
            }
        }
        assert forall|f: FaceHandle| #[trigger] t.has_face(f) implies t.face_ok(f) by {
            assert(self.has_face(f));
            self.lemma_face(f);
            let l = self.loops[f];
            assert forall|i: int| 0 <= i < l.len() implies {
                &&& t.half_edges.dom().contains(#[trigger] l[i])
                &&& t.half_edges[l[i]].face == Some(f)
            } by {
                assert(self.has(l[i]));
            }
            assert forall|i: int| 0 <= i < l.len() implies #[trigger] t.loop_step(l, i) by {
                assert(self.has(l[i]));
                assert(self.loop_step(l, i));
            }
        }
        assert forall|a: HalfEdgeHandle, b: HalfEdgeHandle|
            #![trigger t.has(a), t.has(b)]
            t.has(a) && t.has(b) && t.origin(a) == t.origin(b) && t.target(a) == t.target(
                b,
            ) implies a == b by {
            if a != h1 && a != h2 {
                assert(self.has(a));
                self.lemma_half_edge(a);
                assert(self.has(self.pair(a)));
            }
            if b != h1 && b != h2 {
                assert(self.has(b));
                self.lemma_half_edge(b);
                assert(self.has(self.pair(b)));
            }
            if a != b {
                if a == h1 || b == h1 {
                    let o = if a == h1 {
                        b
                    } else {
                        a
                    };
                    assert(o != h2);
                    assert(self.joins(o, v1, v2));
                } else if a == h2 || b == h2 {
                    let o = if a == h2 {
                        b
                    } else {
                        a
                    };
                    assert(self.joins(o, v2, v1));
                    self.lemma_joins_pair(o, v2, v1);
                }
            }
        }
        assert forall|a: HalfEdgeHandle, b: HalfEdgeHandle|
            #![trigger t.has(a), t.has(b)]
            t.has(a) && t.has(b) && t.edge(a) == t.edge(b) implies a == b || b == t.pair(a) by {
            if a != h1 && a != h2 {
                assert(self.has(a));
                self.lemma_half_edge(a);
            }
            if b != h1 && b != h2 {
                assert(self.has(b));
                self.lemma_half_edge(b);
            }
        }
    }
}

} // verus!
