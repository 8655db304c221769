//! Making two half-edges follow each other: the change on the model, and
//! the proof that it keeps a well-formed graph well formed.
//!
//! The half-edge `hi` points to a vertex `v` and `ho` leaves `v`. To make
//! `ho` the `next` of `hi`, the part of the ring of `v` that lies between
//! the two is cut out and put back in behind a free half-edge of the ring.

use crate::handle::{EdgeHandle, FaceHandle, HalfEdgeHandle, VertexHandle};
use crate::topology::{cyc_next, lemma_rotated, place_of, rotated, Links, Topology};
use vstd::prelude::*;

verus! {

impl Topology {
    /// The half-edges into the target of `after` that a rotation meets
    /// from `after` on, up to `before` and without it.
    pub open spec fn incoming_before(self, after: HalfEdgeHandle, before: HalfEdgeHandle) -> Seq<
        HalfEdgeHandle,
    > {
        let r = self.ring_from(self.pair(after));
        Seq::new(place_of(r, self.pair(before)) as nat, |j: int| self.pair(r[j]))
    }

    /// The first half-edge on no face among `incoming_before`, if any.
    pub open spec fn free_between(self, after: HalfEdgeHandle, before: HalfEdgeHandle) -> Option<
        HalfEdgeHandle,
    > {
        match self.free_place(self.incoming_before(after, before)) {
            Some(i) => Some(self.incoming_before(after, before)[i]),
            None => None,
        }
    }

    /// What `make_hedge_adjacent` asks of its arguments: `hi` points to the
    /// vertex that `ho` leaves, and both lie on no face.
    pub open spec fn adjoinable(self, hi: HalfEdgeHandle, ho: HalfEdgeHandle) -> bool {
        &&& self.has(hi)
        &&& self.has(ho)
        &&& self.target(hi) == self.origin(ho)
        &&& self.is_free(hi)
        &&& self.is_free(ho)
    }

    /// Whether `ho` can be made the `next` of `hi`: it is so already, or
    /// the ring has a free half-edge behind which to put what lies between
    /// them.
    pub open spec fn can_adjoin(self, hi: HalfEdgeHandle, ho: HalfEdgeHandle) -> bool {
        self.next(hi) == ho || self.free_between(self.pair(ho), hi) is Some
    }

    /// The ring of the origin of `ho`, begun at `ho`, after the part behind
    /// `pair(hi)` has been moved behind place `a`.
    pub open spec fn ring_moved(self, hi: HalfEdgeHandle, ho: HalfEdgeHandle, a: int) -> Seq<
        HalfEdgeHandle,
    > {
        let r = self.ring_from(ho);
        let b = place_of(r, self.pair(hi));
        r.subrange(0, a + 1) + r.subrange(b + 1, r.len() as int) + r.subrange(a + 1, b + 1)
    }

    /// The graph after `ho` has been made the `next` of `hi` by moving a
    /// part of the ring, where that was needed and possible.
    #[verifier::opaque]
    pub open spec fn adjoined(self, hi: HalfEdgeHandle, ho: HalfEdgeHandle) -> Topology {
        let v = self.origin(ho);
        let a = self.free_place(self.incoming_before(self.pair(ho), hi))->Some_0;
        let free_in = self.pair(self.ring_from(ho)[a]);
        let in_next = self.next(hi);
        let out_prev = self.prev(ho);
        let free_in_next = self.next(free_in);
        let moved = self.ring_moved(hi, ho, a);
        Topology {
            half_edges: self.half_edges.insert(hi, Links { next: ho, ..self.half_edges[hi] }).insert(
                ho,
                Links { prev: hi, ..self.half_edges[ho] },
            ).insert(free_in, Links { next: in_next, ..self.half_edges[free_in] }).insert(
                in_next,
                Links { prev: free_in, ..self.half_edges[in_next] },
            ).insert(out_prev, Links { next: free_in_next, ..self.half_edges[out_prev] }).insert(
                free_in_next,
                Links { prev: out_prev, ..self.half_edges[free_in_next] },
            ),
            rings: self.rings.insert(v, rotated(moved, place_of(moved, self.rings[v][0]))),
            ..self
        }
    }

    /// The graph after `make_hedge_adjacent(hi, ho)` has succeeded.
    pub open spec fn adjacent_made(self, hi: HalfEdgeHandle, ho: HalfEdgeHandle) -> Topology {
        if self.next(hi) == ho {
            self
        } else {
            self.adjoined(hi, ho)
        }
    }

    /// The places and half-edges that the change works on.
    pub proof fn lemma_adjoin_site(self, hi: HalfEdgeHandle, ho: HalfEdgeHandle)
        requires
            self.wf(),
            self.adjoinable(hi, ho),
            self.next(hi) != ho,
            self.free_between(self.pair(ho), hi) is Some,
        ensures
            ({
                let v = self.origin(ho);
                let r = self.ring_from(ho);
                let k = r.len() as int;
                let b = place_of(r, self.pair(hi));
                let a = self.free_place(self.incoming_before(self.pair(ho), hi))->Some_0;
                &&& self.ring_cycle(v, r)
                &&& k == self.rings[v].len()
                &&& 0 <= a < b < k - 1
                &&& r[0] == ho
                &&& r[b] == self.pair(hi)
                &&& r[b + 1] == self.next(hi)
                &&& self.pair(r[k - 1]) == self.prev(ho)
                &&& r[a + 1] == self.next(self.pair(r[a]))
                &&& self.free_between(self.pair(ho), hi) == Some(self.pair(r[a]))
                &&& self.is_free(self.pair(r[a]))
                &&& self.is_free(self.next(hi))
                &&& self.is_free(self.prev(ho))
                &&& self.is_free(self.next(self.pair(r[a])))
                &&& forall|j: int| 0 <= j < k ==> self.has(#[trigger] r[j])
                &&& forall|j: int|
                    0 <= j < k ==> self.has(self.pair(#[trigger] r[j])) && self.pair(
                        self.pair(r[j]),
                    ) == r[j] && self.target(self.pair(r[j])) == v
                &&& forall|j: int, h: HalfEdgeHandle|
                    0 <= j < k && self.has(h) && #[trigger] self.pair(h) == #[trigger] r[j] ==> h
                        == self.pair(r[j])
                &&& forall|x: HalfEdgeHandle| r.contains(x) <==> self.rings[v].contains(x)
                &&& self.has_vertex(v)
                &&& self.vertex_ok(v)
            }),
    {
        let v = self.origin(ho);
        self.lemma_half_edge(ho);
        self.lemma_half_edge(hi);
        self.lemma_half_edge(self.pair(ho));
        self.lemma_half_edge(self.pair(hi));
        self.lemma_ring_from(ho);
        let r = self.ring_from(ho);
        let k = r.len() as int;
        assert(self.ring_from(self.pair(self.pair(ho))) == r);
        assert(self.origin(self.pair(hi)) == v);
        assert(r.contains(self.pair(hi)));
        let b = place_of(r, self.pair(hi));
        let inc = self.incoming_before(self.pair(ho), hi);
        self.lemma_free_place(inc);
        let a = self.free_place(inc)->Some_0;
        assert(inc[a] == self.pair(r[a]));
        assert forall|j: int| 0 <= j < k implies self.has(#[trigger] r[j]) by {}
        assert forall|j: int| 0 <= j < k implies self.has(self.pair(#[trigger] r[j])) && self.pair(
            self.pair(r[j]),
        ) == r[j] && self.target(self.pair(r[j])) == v by {
            assert(self.has(r[j]));
            self.lemma_half_edge(r[j]);
        }
        assert forall|j: int, h: HalfEdgeHandle|
            0 <= j < k && self.has(h) && #[trigger] self.pair(h) == #[trigger] r[j] implies h
            == self.pair(r[j]) by {
            self.lemma_half_edge(h);
        }
        assert(self.ring_step(r, b));
        assert(self.ring_step(r, k - 1));
        assert(self.ring_step(r, a));
        assert(self.has(r[k - 1]));
        self.lemma_half_edge(r[k - 1]);
        self.lemma_half_edge(self.pair(r[k - 1]));
        assert(self.has(r[a]));
        self.lemma_half_edge(r[a]);
        self.lemma_half_edge(self.pair(r[a]));
        self.lemma_half_edge(self.prev(ho));
    }

    /// The links of the graph after the change, half-edge by half-edge:
    /// only `next` and `prev` change, and only at six half-edges that lie
    /// on no face.
    pub proof fn lemma_adjoined_links(self, hi: HalfEdgeHandle, ho: HalfEdgeHandle)
        requires
            self.wf(),
            self.adjoinable(hi, ho),
            self.next(hi) != ho,
            self.free_between(self.pair(ho), hi) is Some,
        ensures
            ({
                let t = self.adjoined(hi, ho);
                let free_in = self.free_between(self.pair(ho), hi)->Some_0;
                let in_next = self.next(hi);
                let out_prev = self.prev(ho);
                let free_in_next = self.next(free_in);
                &&& t.half_edges.dom() == self.half_edges.dom()
                &&& t.vertices == self.vertices
                &&& t.edges == self.edges
                &&& t.faces == self.faces
                &&& t.loops == self.loops
                &&& t.rings == self.rings.insert(
                    self.origin(ho),
                    rotated(
                        self.ring_moved(
                            hi,
                            ho,
                            self.free_place(self.incoming_before(self.pair(ho), hi))->Some_0,
                        ),
                        place_of(
                            self.ring_moved(
                                hi,
                                ho,
                                self.free_place(self.incoming_before(self.pair(ho), hi))->Some_0,
                            ),
                            self.rings[self.origin(ho)][0],
                        ),
                    ),
                )
                &&& hi != free_in && hi != out_prev && free_in != out_prev
                &&& ho != in_next && ho != free_in_next && in_next != free_in_next
                &&& forall|h: HalfEdgeHandle| #[trigger]
                    self.has(h) ==> t.half_edges[h] == Links {
                        next: if h == hi {
                            ho
                        } else if h == free_in {
                            in_next
                        } else if h == out_prev {
                            free_in_next
                        } else {
                            self.next(h)
                        },
                        prev: if h == ho {
                            hi
                        } else if h == in_next {
                            free_in
                        } else if h == free_in_next {
                            out_prev
                        } else {
                            self.prev(h)
                        },
                        ..self.half_edges[h]
                    }
            }),
    {
        reveal(Topology::adjoined);
        self.lemma_adjoin_site(hi, ho);
        let t = self.adjoined(hi, ho);
        let r = self.ring_from(ho);
        let k = r.len() as int;
        let b = place_of(r, self.pair(hi));
        let a = self.free_place(self.incoming_before(self.pair(ho), hi))->Some_0;
        let free_in = self.pair(r[a]);
        let in_next = self.next(hi);
        let out_prev = self.prev(ho);
        let free_in_next = self.next(free_in);
        self.lemma_half_edge(hi);
        self.lemma_half_edge(ho);
        assert(self.has(r[a]) && self.has(r[b]) && self.has(r[k - 1]));
        assert(self.has(r[a + 1]) && self.has(r[b + 1]) && self.has(r[0]));
        assert(self.pair(r[b]) == hi);
        assert(hi != free_in);
        assert(hi != out_prev);
        assert(free_in != out_prev);
        assert(r[0] != r[b + 1] && r[0] != r[a + 1] && r[a + 1] != r[b + 1]);
        self.lemma_half_edge(in_next);
        self.lemma_half_edge(free_in_next);
        assert(t.half_edges.dom() =~= self.half_edges.dom());
    }

    /// What stands where in the ring after a part of it has been moved.
    #[verifier::rlimit(30)]
    pub proof fn lemma_ring_moved(self, hi: HalfEdgeHandle, ho: HalfEdgeHandle)
        requires
            self.wf(),
            self.adjoinable(hi, ho),
            self.next(hi) != ho,
            self.free_between(self.pair(ho), hi) is Some,
        ensures
            ({
                let r = self.ring_from(ho);
                let k = r.len() as int;
                let b = place_of(r, self.pair(hi));
                let a = self.free_place(self.incoming_before(self.pair(ho), hi))->Some_0;
                let m = self.ring_moved(hi, ho, a);
                &&& m.len() == k
                &&& forall|j: int|
                    0 <= j < k ==> #[trigger] m[j] == r[if j <= a {
                        j
                    } else if j <= a + (k - 1 - b) {
                        j + (b - a)
                    } else {
                        j - (k - 1 - b)
                    }]
                &&& m.no_duplicates()
                &&& forall|x: HalfEdgeHandle| m.contains(x) <==> r.contains(x)
            }),
    {
        self.lemma_adjoin_site(hi, ho);
        let r = self.ring_from(ho);
        let k = r.len() as int;
        let b = place_of(r, self.pair(hi));
        let a = self.free_place(self.incoming_before(self.pair(ho), hi))->Some_0;
        let m = self.ring_moved(hi, ho, a);
        let back = |j: int|
            if j <= a {
                j
            } else if j <= a + (k - 1 - b) {
                j + (b - a)
            } else {
                j - (k - 1 - b)
            };
        assert forall|j: int| 0 <= j < k implies #[trigger] m[j] == r[back(j)] by {}
        assert forall|x: HalfEdgeHandle| m.contains(x) <==> r.contains(x) by {
            if m.contains(x) {
                let j = choose|j: int| 0 <= j < m.len() && m[j] == x;
                assert(m[j] == r[back(j)]);
            }
            if r.contains(x) {
                let i = choose|i: int| 0 <= i < r.len() && r[i] == x;
                let j = if i <= a {
                    i
                } else if i <= b {
                    i + (k - 1 - b)
                } else {
                    i - (b - a)
                };
                assert(m[j] == r[back(j)]);
                assert(back(j) == i);
            }
        }
        assert forall|p: int, q: int| 0 <= p < m.len() && 0 <= q < m.len() && p != q implies m[p]
            != m[q] by {
            assert(m[p] == r[back(p)]);
            assert(m[q] == r[back(q)]);
            assert(back(p) != back(q));
        }
    }

    /// After the change each half-edge of the ring is followed, in the
    /// rotation, by the one that followed it before, except at the three
    /// places where the ring was cut.
    pub proof fn lemma_adjoined_rot(self, hi: HalfEdgeHandle, ho: HalfEdgeHandle)
        requires
            self.wf(),
            self.adjoinable(hi, ho),
            self.next(hi) != ho,
            self.free_between(self.pair(ho), hi) is Some,
        ensures
            ({
                let t = self.adjoined(hi, ho);
                let v = self.origin(ho);
                let r = self.ring_from(ho);
                let k = r.len() as int;
                let b = place_of(r, self.pair(hi));
                let a = self.free_place(self.incoming_before(self.pair(ho), hi))->Some_0;
                forall|j: int| 0 <= j < k ==> #[trigger] t.moved_step(v, r, a, b, j)
            }),
    {
        self.lemma_adjoin_site(hi, ho);
        self.lemma_adjoined_links(hi, ho);
        let t = self.adjoined(hi, ho);
        let v = self.origin(ho);
        let r = self.ring_from(ho);
        let k = r.len() as int;
        let b = place_of(r, self.pair(hi));
        let a = self.free_place(self.incoming_before(self.pair(ho), hi))->Some_0;
        let free_in = self.pair(r[a]);
        assert(self.has(r[a]) && self.has(r[b]) && self.has(r[k - 1]));
        assert(self.pair(r[a]) == free_in);
        assert(self.pair(r[b]) == hi);
        assert(self.pair(r[k - 1]) == self.prev(ho));
        assert forall|j: int| 0 <= j < k implies #[trigger] t.moved_step(v, r, a, b, j) by {
            assert(self.has(r[j]));
            let q = self.pair(r[j]);
            assert(self.has(q));
            assert(self.pair(q) == r[j]);
            assert(self.ring_step(r, j));
            if j != a {
                assert(r[j] != r[a]);
                assert(q != free_in);
            }
            if j != b {
                assert(r[j] != r[b]);
                assert(q != hi);
            }
            if j != k - 1 {
                assert(r[j] != r[k - 1]);
                assert(q != self.prev(ho));
            }
        }
    }

    /// What holds of the half-edge at place `j` of the ring `r` after the
    /// part behind place `b` has been moved behind place `a`: it still
    /// leaves `v`, and it is followed by what followed it before, except
    /// at the three places where the ring was cut.
    pub open spec fn moved_step(
        self,
        v: VertexHandle,
        r: Seq<HalfEdgeHandle>,
        a: int,
        b: int,
        j: int,
    ) -> bool {
        &&& self.has(r[j])
        &&& self.origin(r[j]) == v
        &&& self.rot(r[j]) == (if j == a {
            r[b + 1]
        } else if j == b {
            r[0]
        } else if j == r.len() - 1 {
            r[a + 1]
        } else {
            r[j + 1]
        })
    }

    /// A ring of which one part has been moved behind another is a ring
    /// of the graph in which the rotation has been cut and joined to
    /// match: `r` lists the ring before, the part behind place `b` is
    /// moved behind place `a`.
    pub proof fn lemma_moved_is_ring(
        self,
        v: VertexHandle,
        r: Seq<HalfEdgeHandle>,
        m: Seq<HalfEdgeHandle>,
        a: int,
        b: int,
    )
        requires
            0 <= a < b < r.len() - 1,
            m.len() == r.len(),
            m.no_duplicates(),
            forall|j: int|
                0 <= j < r.len() ==> #[trigger] m[j] == r[if j <= a {
                    j
                } else if j <= a + (r.len() - 1 - b) {
                    j + (b - a)
                } else {
                    j - (r.len() - 1 - b)
                }],
            forall|j: int| 0 <= j < r.len() ==> #[trigger] self.moved_step(v, r, a, b, j),
        ensures
            self.ring_cycle(v, m),
    {
        let k = r.len() as int;
        assert forall|j: int| 0 <= j < m.len() implies {
            &&& self.half_edges.dom().contains(#[trigger] m[j])
            &&& self.origin(m[j]) == v
        } by {
            let i = if j <= a {
                j
            } else if j <= a + (k - 1 - b) {
                j + (b - a)
            } else {
                j - (k - 1 - b)
            };
            assert(m[j] == r[i]);
            assert(self.moved_step(v, r, a, b, i));
        }
        assert forall|j: int| 0 <= j < m.len() implies #[trigger] self.ring_step(m, j) by {
            let i = if j <= a {
                j
            } else if j <= a + (k - 1 - b) {
                j + (b - a)
            } else {
                j - (k - 1 - b)
            };
            assert(m[j] == r[i]);
            assert(self.moved_step(v, r, a, b, i));
            let j2 = cyc_next(j, k);
            let i2 = if j2 <= a {
                j2
            } else if j2 <= a + (k - 1 - b) {
                j2 + (b - a)
            } else {
                j2 - (k - 1 - b)
            };
            assert(m[j2] == r[i2]);
        }
    }

    /// After the change the origin of `ho` has a ring that holds what it
    /// held before.
    pub proof fn lemma_adjoined_ring(self, hi: HalfEdgeHandle, ho: HalfEdgeHandle)
        requires
            self.wf(),
            self.adjoinable(hi, ho),
            self.next(hi) != ho,
            self.free_between(self.pair(ho), hi) is Some,
        ensures
            ({
                let t = self.adjoined(hi, ho);
                let v = self.origin(ho);
                &&& t.vertex_ok(v)
                &&& forall|x: HalfEdgeHandle|
                    t.rings[v].contains(x) <==> self.rings[v].contains(x)
            }),
    {
        let t = self.adjoined(hi, ho);
        let v = self.origin(ho);
        let r = self.ring_from(ho);
        let k = r.len() as int;
        let b = place_of(r, self.pair(hi));
        let a = self.free_place(self.incoming_before(self.pair(ho), hi))->Some_0;
        let m = self.ring_moved(hi, ho, a);
        let s = self.rings[v];
        assert(0 <= a < b < k - 1 && s.len() == k && self.vertex_ok(v) && t.vertices == self.vertices
            && (forall|x: HalfEdgeHandle| r.contains(x) <==> s.contains(x))) by {
            self.lemma_adjoin_site(hi, ho);
            self.lemma_adjoined_links(hi, ho);
        }
        self.lemma_ring_moved(hi, ho);
        assert(t.ring_cycle(v, m)) by {
            self.lemma_adjoined_rot(hi, ho);
            t.lemma_moved_is_ring(v, r, m, a, b);
        }
        assert(s.contains(s[0]));
        assert(m.contains(s[0]));
        let p = place_of(m, s[0]);
        lemma_rotated(m, p);
        t.lemma_rotated_ring(v, m, p);
        self.lemma_adjoined_links(hi, ho);
        self.lemma_half_edge(ho);
        assert(t.rings[v] == rotated(m, p));
    }

    /// After the change every half-edge obeys the invariants.
    pub proof fn lemma_adjoined_half_edges(self, hi: HalfEdgeHandle, ho: HalfEdgeHandle)
        requires
            self.wf(),
            self.adjoinable(hi, ho),
            self.next(hi) != ho,
            self.free_between(self.pair(ho), hi) is Some,
        ensures
            ({
                let t = self.adjoined(hi, ho);
                forall|h: HalfEdgeHandle| #[trigger] t.has(h) ==> t.half_edge_ok(h)
            }),
    {
        let t = self.adjoined(hi, ho);
        self.lemma_adjoin_site(hi, ho);
        self.lemma_adjoined_links(hi, ho);
        self.lemma_adjoined_ring(hi, ho);
        let free_in = self.free_between(self.pair(ho), hi)->Some_0;
        let in_next = self.next(hi);
        let out_prev = self.prev(ho);
        let free_in_next = self.next(free_in);
        self.lemma_half_edge(hi);
        self.lemma_half_edge(ho);
        self.lemma_half_edge(free_in);
        self.lemma_half_edge(in_next);
        self.lemma_half_edge(out_prev);
        self.lemma_half_edge(free_in_next);
        assert(self.has(self.pair(in_next)) && self.has(self.pair(free_in_next)) && self.has(
            self.pair(ho),
        ));
        assert forall|h: HalfEdgeHandle| #[trigger] t.has(h) implies t.half_edge_ok(h) by {
            assert(self.has(h));
            self.lemma_half_edge(h);
            let l = self.half_edges[h];
            self.lemma_half_edge(l.pair);
            self.lemma_half_edge(l.next);
            self.lemma_half_edge(l.prev);
            assert(self.has(self.pair(l.next)));
            assert(self.has(t.next(h)));
            assert(self.has(t.prev(h)));
            assert(self.has(self.pair(t.next(h))));
        }
    }

    /// After the change the vertices, edges and faces obey the invariants,
    /// and no two half-edges run in parallel.
    pub proof fn lemma_adjoined_rest(self, hi: HalfEdgeHandle, ho: HalfEdgeHandle)
        requires
            self.wf(),
            self.adjoinable(hi, ho),
            self.next(hi) != ho,
            self.free_between(self.pair(ho), hi) is Some,
        ensures
            ({
                let t = self.adjoined(hi, ho);
                &&& forall|u: VertexHandle| #[trigger] t.has_vertex(u) ==> t.vertex_ok(u)
                &&& forall|g: EdgeHandle| #[trigger] t.has_edge(g) ==> t.edge_ok(g)
                &&& forall|f: FaceHandle| #[trigger] t.has_face(f) ==> t.face_ok(f)
                &&& t.simple()
                &&& t.edges_paired()
                &&& t.loops.dom() == t.faces.dom()
                &&& t.rings.dom() == t.vertices.dom()
            }),
    {
        let t = self.adjoined(hi, ho);
        let v = self.origin(ho);
        self.lemma_adjoin_site(hi, ho);
        self.lemma_adjoined_links(hi, ho);
        self.lemma_adjoined_ring(hi, ho);
        self.lemma_domains();
        let free_in = self.free_between(self.pair(ho), hi)->Some_0;
        let out_prev = self.prev(ho);
        self.lemma_half_edge(hi);
        self.lemma_half_edge(ho);
        self.lemma_half_edge(free_in);
        self.lemma_half_edge(out_prev);
        assert(t.rings.dom() =~= t.vertices.dom());
        assert forall|u: VertexHandle| #[trigger] t.has_vertex(u) implies t.vertex_ok(u) by {
            if u != v {
                assert(self.has_vertex(u));
                self.lemma_vertex(u);
                let r = self.rings[u];
                assert forall|i: int| 0 <= i < r.len() implies {
                    &&& t.half_edges.dom().contains(#[trigger] r[i])
                    &&& t.origin(r[i]) == u
                } by {
                    assert(self.has(r[i]));
                    self.lemma_half_edge(r[i]);
                }
                assert forall|i: int| 0 <= i < r.len() implies #[trigger] t.ring_step(r, i) by {
                    assert(self.has(r[i]));
                    self.lemma_half_edge(r[i]);
                    assert(self.ring_step(r, i));
                }
            }
        }
        assert forall|g: EdgeHandle| #[trigger] t.has_edge(g) implies t.edge_ok(g) by {
            assert(self.has_edge(g));
            self.lemma_edge(g);
        }
        assert forall|f: FaceHandle| #[trigger] t.has_face(f) implies t.face_ok(f) by {
            assert(self.has_face(f));
            self.lemma_face(f);
            let l = self.loops[f];
            assert forall|i: int| 0 <= i < l.len() implies {
                &&& t.half_edges.dom().contains(#[trigger] l[i])
                &&& t.half_edges[l[i]].face == Some(f)
            } by {
                assert(self.has(l[i]));
            }
            assert forall|i: int| 0 <= i < l.len() implies #[trigger] t.loop_step(l, i) by {
                assert(self.has(l[i]));
                assert(self.loop_step(l, i));
            }
        }
        assert forall|x: HalfEdgeHandle, y: HalfEdgeHandle|
            #![trigger t.has(x), t.has(y)]
            t.has(x) && t.has(y) && t.origin(x) == t.origin(y) && t.target(x) == t.target(
                y,
            ) implies x == y by {
            reveal(Topology::wf);
            assert(self.has(x) && self.has(y));
            self.lemma_half_edge(x);
            self.lemma_half_edge(y);
        }
        assert forall|x: HalfEdgeHandle, y: HalfEdgeHandle|
            #![trigger t.has(x), t.has(y)]
            t.has(x) && t.has(y) && t.edge(x) == t.edge(y) implies x == y || y == t.pair(x) by {
            reveal(Topology::wf);
            assert(self.has(x) && self.has(y));
        }
    }

    /// Making two half-edges follow each other keeps the graph well
    /// formed, and makes them follow each other.
    pub proof fn lemma_adjoined_wf(self, hi: HalfEdgeHandle, ho: HalfEdgeHandle)
        requires
            self.wf(),
            self.adjoinable(hi, ho),
            self.next(hi) != ho,
            self.free_between(self.pair(ho), hi) is Some,
        ensures
            self.adjoined(hi, ho).wf(),
            self.adjoined(hi, ho).next(hi) == ho,
    {
        self.lemma_adjoined_links(hi, ho);
        self.lemma_adjoined_half_edges(hi, ho);
        self.lemma_adjoined_rest(hi, ho);
        reveal(Topology::wf);
    }
}

} // verus!
