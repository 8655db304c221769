//! When two half-edges can be made to follow each other, and what leaves
//! the answer as it was.

use crate::handle::{EdgeHandle, HalfEdgeHandle, VertexHandle};
use crate::topology::{cyc_next, lemma_rotated, place_of, Topology};
use vstd::prelude::*;

verus! {

impl Topology {
    /// Two graphs that agree on which half-edges of `s` are free agree on
    /// the first free place of `s`.
    pub proof fn lemma_free_place_agrees(self, other: Topology, s: Seq<HalfEdgeHandle>)
        requires
            forall|j: int| 0 <= j < s.len() ==> self.is_free(#[trigger] s[j]) == other.is_free(s[j]),
        ensures
            self.free_place(s) == other.free_place(s),
    {
        self.lemma_free_place(s);
        other.lemma_free_place(s);
        if self.free_place(s) is Some {
            let i = self.free_place(s)->Some_0;
            assert(other.is_first_free(s, i)) by {
                assert forall|j: int| 0 <= j < i implies !other.is_free(#[trigger] s[j]) by {
                    assert(!self.is_free(s[j]));
                }
            }
            other.lemma_free_place_some(s, i);
        } else {
            assert forall|j: int| 0 <= j < s.len() implies !other.is_free(#[trigger] s[j]) by {
                assert(!self.is_free(s[j]));
            }
            other.lemma_free_place_none(s);
        }
    }

    /// Where the pair of `ho` lies on no face and is not `hi`, `ho` can be
    /// made the `next` of `hi`.
    pub proof fn lemma_can_adjoin_free_out(self, hi: HalfEdgeHandle, ho: HalfEdgeHandle)
        requires
            self.wf(),
            self.adjoinable(hi, ho),
            hi != self.pair(ho),
            self.is_free(self.pair(ho)),
        ensures
            self.can_adjoin(hi, ho),
    {
        self.lemma_half_edge(ho);
        self.lemma_half_edge(hi);
        self.lemma_half_edge(self.pair(hi));
        self.lemma_ring_from(ho);
        let r = self.ring_from(ho);
        assert(self.ring_from(self.pair(self.pair(ho))) == r);
        assert(r.contains(self.pair(hi)));
        let b = place_of(r, self.pair(hi));
        let inc = self.incoming_before(self.pair(ho), hi);
        assert(b > 0);
        assert(inc[0] == self.pair(r[0]));
        self.lemma_some_free(inc, 0);
    }

    /// Where the pair of `hi` lies on no face and is not `ho`, `ho` can be
    /// made the `next` of `hi`.
    pub proof fn lemma_can_adjoin_free_in(self, hi: HalfEdgeHandle, ho: HalfEdgeHandle)
        requires
            self.wf(),
            self.adjoinable(hi, ho),
            hi != self.pair(ho),
            self.is_free(self.pair(hi)),
        ensures
            self.can_adjoin(hi, ho),
    {
        self.lemma_half_edge(ho);
        self.lemma_half_edge(hi);
        let q = self.pair(hi);
        self.lemma_half_edge(q);
        self.lemma_ring_from(ho);
        let r = self.ring_from(ho);
        assert(self.ring_from(self.pair(self.pair(ho))) == r);
        assert(r.contains(q));
        let b = place_of(r, q);
        let inc = self.incoming_before(self.pair(ho), hi);
        assert(b > 0);
        assert(self.ring_step(r, b - 1));
        assert(self.has(r[b - 1]));
        self.lemma_half_edge(r[b - 1]);
        let p = self.pair(r[b - 1]);
        self.lemma_half_edge(p);
        assert(self.next(p) == q);
        assert(inc[b - 1] == p);
        self.lemma_some_free(inc, b - 1);
    }

    /// Whether `other` is as `self` is round the origin of `ho`, as far as
    /// making `ho` the `next` of `hi` goes: the ring is the same, and so
    /// are the pairs of its half-edges and whether they are free, and the
    /// `next` of `hi`.
    pub open spec fn corner_kept(self, other: Topology, hi: HalfEdgeHandle, ho: HalfEdgeHandle) -> bool {
        let w = self.origin(ho);
        &&& other.rings[w] == self.rings[w]
        &&& other.next(hi) == self.next(hi)
        &&& other.pair(hi) == self.pair(hi)
        &&& other.pair(ho) == self.pair(ho)
        &&& other.pair(self.pair(ho)) == ho
        &&& other.target(self.pair(ho)) == w
        &&& forall|j: int|
            0 <= j < self.rings[w].len() ==> other.pair(#[trigger] self.rings[w][j]) == self.pair(
                self.rings[w][j],
            ) && other.is_free(self.pair(self.rings[w][j])) == self.is_free(
                self.pair(self.rings[w][j]),
            )
    }

    /// A change that keeps a corner keeps whether its two half-edges can
    /// be made to follow each other.
    pub proof fn lemma_corner_kept(self, other: Topology, hi: HalfEdgeHandle, ho: HalfEdgeHandle)
        requires
            self.wf(),
            self.adjoinable(hi, ho),
            self.corner_kept(other, hi, ho),
        ensures
            other.can_adjoin(hi, ho) == self.can_adjoin(hi, ho),
            other.free_between(other.pair(ho), hi) == self.free_between(self.pair(ho), hi),
    {
        self.lemma_half_edge(ho);
        self.lemma_half_edge(hi);
        self.lemma_half_edge(self.pair(hi));
        self.lemma_ring_from(ho);
        let w = self.origin(ho);
        let s = self.rings[w];
        let r = self.ring_from(ho);
        let p = place_of(s, ho);
        lemma_rotated(s, p);
        assert(self.ring_from(self.pair(self.pair(ho))) == r);
        assert(other.ring_from(other.pair(other.pair(ho))) == r);
        let inc = self.incoming_before(self.pair(ho), hi);
        let inc2 = other.incoming_before(other.pair(ho), hi);
        assert(r.contains(self.pair(hi)));
        assert forall|j: int| 0 <= j < r.len() implies other.pair(#[trigger] r[j]) == self.pair(
            r[j],
        ) && other.is_free(self.pair(r[j])) == self.is_free(self.pair(r[j])) by {
            let k = if p + j < s.len() {
                p + j
            } else {
                p + j - s.len()
            };
            assert(r[j] == s[k]);
        }
        assert(inc2 =~= inc);
        assert forall|j: int| 0 <= j < inc.len() implies self.is_free(#[trigger] inc[j])
            == other.is_free(inc[j]) by {
            assert(inc[j] == self.pair(r[j]));
        }
        self.lemma_free_place_agrees(other, inc);
    }

    /// Making two half-edges follow each other at one vertex changes the
    /// `next` of no half-edge that points to another vertex, and keeps
    /// every corner at another vertex.
    pub proof fn lemma_adjacent_made_elsewhere(
        self,
        hi: HalfEdgeHandle,
        ho: HalfEdgeHandle,
        x: HalfEdgeHandle,
        y: HalfEdgeHandle,
    )
        requires
            self.wf(),
            self.adjoinable(hi, ho),
            self.can_adjoin(hi, ho),
            self.adjoinable(x, y),
            self.target(x) != self.target(hi),
        ensures
            self.adjacent_made(hi, ho).next(x) == self.next(x),
            self.corner_kept(self.adjacent_made(hi, ho), x, y),
    {
        let t = self.adjacent_made(hi, ho);
        let w = self.origin(y);
        self.lemma_half_edge(x);
        self.lemma_half_edge(y);
        self.lemma_half_edge(self.pair(y));
        self.lemma_vertex(w);
        if self.next(hi) != ho {
            self.lemma_adjoin_site(hi, ho);
            self.lemma_adjoined_links(hi, ho);
            let free_in = self.free_between(self.pair(ho), hi)->Some_0;
            let r = self.ring_from(ho);
            let a = self.free_place(self.incoming_before(self.pair(ho), hi))->Some_0;
            assert(self.has(r[a]));
            assert(self.target(free_in) == self.origin(ho));
            assert(self.target(self.prev(ho)) == self.origin(ho)) by {
                self.lemma_half_edge(self.prev(ho));
            }
            assert forall|j: int| 0 <= j < self.rings[w].len() implies t.pair(
                #[trigger] self.rings[w][j],
            ) == self.pair(self.rings[w][j]) && t.is_free(self.pair(self.rings[w][j]))
                == self.is_free(self.pair(self.rings[w][j])) by {
                let h = self.rings[w][j];
                assert(self.has(h));
                self.lemma_half_edge(h);
            }
        }
    }

    /// Every half-edge that points to another vertex than `hi` keeps its
    /// `next` when `ho` is made the `next` of `hi`.
    pub proof fn lemma_adjacent_made_next(
        self,
        hi: HalfEdgeHandle,
        ho: HalfEdgeHandle,
        x: HalfEdgeHandle,
    )
        requires
            self.wf(),
            self.adjoinable(hi, ho),
            self.can_adjoin(hi, ho),
            self.has(x),
            self.target(x) != self.target(hi),
        ensures
            self.adjacent_made(hi, ho).next(x) == self.next(x),
    {
        if self.next(hi) != ho {
            self.lemma_adjoin_site(hi, ho);
            self.lemma_adjoined_links(hi, ho);
            let r = self.ring_from(ho);
            let a = self.free_place(self.incoming_before(self.pair(ho), hi))->Some_0;
            assert(self.has(r[a]));
            self.lemma_half_edge(self.prev(ho));
            self.lemma_half_edge(ho);
        }
    }

    /// Adding an edge keeps every corner at a vertex that is not an end
    /// of the edge, and the ring of every such vertex; the rings of the
    /// two ends grow by one half-edge.
    pub proof fn lemma_with_edge_elsewhere(
        self,
        v1: VertexHandle,
        v2: VertexHandle,
        e: EdgeHandle,
        h1: HalfEdgeHandle,
        h2: HalfEdgeHandle,
        x: HalfEdgeHandle,
        y: HalfEdgeHandle,
    )
        requires
            self.wf(),
            self.edge_fits(v1, v2, e, h1, h2),
            self.adjoinable(x, y),
            self.target(x) != v1,
            self.target(x) != v2,
        ensures
            self.with_edge(v1, v2, e, h1, h2).next(x) == self.next(x),
            self.corner_kept(self.with_edge(v1, v2, e, h1, h2), x, y),
    {
        let t = self.with_edge(v1, v2, e, h1, h2);
        let w = self.origin(y);
        self.lemma_half_edge(x);
        self.lemma_half_edge(y);
        self.lemma_half_edge(self.pair(y));
        self.lemma_vertex(w);
        self.lemma_with_edge_links(v1, v2, e, h1, h2);
        if self.free_place(self.rings[v1]) is Some {
            self.lemma_attach_site(v1);
        }
        if self.free_place(self.rings[v2]) is Some {
            self.lemma_attach_site(v2);
        }
        assert forall|j: int| 0 <= j < self.rings[w].len() implies t.pair(
            #[trigger] self.rings[w][j],
        ) == self.pair(self.rings[w][j]) && t.is_free(self.pair(self.rings[w][j]))
            == self.is_free(self.pair(self.rings[w][j])) by {
            let h = self.rings[w][j];
            assert(self.has(h));
            self.lemma_half_edge(h);
        }
    }

    /// Adding an edge changes the ring of no vertex but its two ends, and
    /// makes those longer by one.
    pub proof fn lemma_with_edge_ring_lengths(
        self,
        v1: VertexHandle,
        v2: VertexHandle,
        e: EdgeHandle,
        h1: HalfEdgeHandle,
        h2: HalfEdgeHandle,
    )
        requires
            self.wf(),
            self.edge_fits(v1, v2, e, h1, h2),
        ensures
            forall|u: VertexHandle|
                u != v1 && u != v2 ==> #[trigger] self.with_edge(v1, v2, e, h1, h2).rings[u]
                    == self.rings[u],
            self.with_edge(v1, v2, e, h1, h2).rings[v1].len() == self.rings[v1].len() + 1,
            self.with_edge(v1, v2, e, h1, h2).rings[v2].len() == self.rings[v2].len() + 1,
    {
        self.lemma_vertex(v1);
        self.lemma_vertex(v2);
        self.lemma_free_place(self.rings[v1]);
        self.lemma_free_place(self.rings[v2]);
    }

    /// Adding an edge leaves it as it was whether a new half-edge can
    /// leave a vertex.
    pub proof fn lemma_with_edge_can_attach(
        self,
        v1: VertexHandle,
        v2: VertexHandle,
        e: EdgeHandle,
        h1: HalfEdgeHandle,
        h2: HalfEdgeHandle,
        u: VertexHandle,
    )
        requires
            self.wf(),
            self.edge_fits(v1, v2, e, h1, h2),
            self.has_vertex(u),
        ensures
            self.with_edge(v1, v2, e, h1, h2).can_attach(u) == self.can_attach(u),
    {
        let t = self.with_edge(v1, v2, e, h1, h2);
        self.lemma_with_edge_links(v1, v2, e, h1, h2);
        self.lemma_with_edge_rings(v1, v2, e, h1, h2);
        self.lemma_vertex(u);
        if u == v1 || u == v2 {
            let x = if u == v1 {
                h1
            } else {
                h2
            };
            let r = t.rings[u];
            let j = choose|j: int| 0 <= j < r.len() && r[j] == x;
            t.lemma_some_free(r, j);
        } else {
            let r = self.rings[u];
            assert forall|j: int| 0 <= j < r.len() implies self.is_free(#[trigger] r[j])
                == t.is_free(r[j]) by {
                assert(self.has(r[j]));
            }
            self.lemma_free_place_agrees(t, r);
        }
    }

    /// After an edge has been added between `v1` and `v2`, the half-edges
    /// between two vertices are those that were there, and the two new
    /// ones between `v1` and `v2`.
    pub proof fn lemma_with_edge_between(
        self,
        v1: VertexHandle,
        v2: VertexHandle,
        e: EdgeHandle,
        h1: HalfEdgeHandle,
        h2: HalfEdgeHandle,
        a: VertexHandle,
        b: VertexHandle,
    )
        requires
            self.wf(),
            self.edge_fits(v1, v2, e, h1, h2),
        ensures
            self.with_edge(v1, v2, e, h1, h2).half_edge_between(a, b) == (if a == v1 && b == v2 {
                Some(h1)
            } else if a == v2 && b == v1 {
                Some(h2)
            } else {
                self.half_edge_between(a, b)
            }),
    {
        let t = self.with_edge(v1, v2, e, h1, h2);
        self.lemma_with_edge_wf(v1, v2, e, h1, h2);
        self.lemma_with_edge_links(v1, v2, e, h1, h2);
        self.lemma_with_edge_grows(v1, v2, e, h1, h2);
        self.law_edge_once_ends(v1, v2, e, h1, h2);
        if !(a == v1 && b == v2) && !(a == v2 && b == v1) {
            if self.half_edge_between(a, b) is Some {
                let h = self.half_edge_between(a, b)->Some_0;
                t.lemma_grows_joins(self, h, a, b);
                t.lemma_between_unique(h, a, b);
            } else if t.half_edge_between(a, b) is Some {
                let h = t.half_edge_between(a, b)->Some_0;
                assert(t.joins(h, a, b));
                assert(self.has(h));
                self.lemma_half_edge(h);
                assert(self.has(self.pair(h)));
                assert(self.joins(h, a, b));
            }
        }
    }

    /// After an edge has been added between `v1` and `v2`, its two
    /// half-edges are the half-edges between `v1` and `v2`.
    pub proof fn law_edge_once_ends(
        self,
        v1: VertexHandle,
        v2: VertexHandle,
        e: EdgeHandle,
        h1: HalfEdgeHandle,
        h2: HalfEdgeHandle,
    )
        requires
            self.wf(),
            self.edge_fits(v1, v2, e, h1, h2),
        ensures
            self.with_edge(v1, v2, e, h1, h2).half_edge_between(v1, v2) == Some(h1),
            self.with_edge(v1, v2, e, h1, h2).half_edge_between(v2, v1) == Some(h2),
    {
        let t = self.with_edge(v1, v2, e, h1, h2);
        self.lemma_with_edge_wf(v1, v2, e, h1, h2);
        self.lemma_with_edge_grows(v1, v2, e, h1, h2);
        self.lemma_with_edge_links(v1, v2, e, h1, h2);
        t.lemma_between_unique(h1, v1, v2);
        t.lemma_joins_pair(h1, v1, v2);
        t.lemma_between_unique(h2, v2, v1);
    }

    /// What holds while the corners of the chain `l` are dealt with one
    /// after the other, when those before place `i` are done: the
    /// half-edges point where they pointed in `start`; and, where no two
    /// of them point to the same vertex, the corners from `i` on are as
    /// they were in `start`, those before `i` could be dealt with in
    /// `start`, and the links made there are in place.
    pub open spec fn corners_pending(self, start: Topology, l: Seq<HalfEdgeHandle>, i: int) -> bool {
        &&& forall|j: int| 0 <= j < l.len() ==> self.target(#[trigger] l[j]) == start.target(l[j])
        &&& start.distinct_targets(l) ==> {
            &&& forall|j: int| i <= j < l.len() ==> #[trigger] self.corner(l, j) == start.corner(l, j)
            &&& forall|j: int| 0 <= j < i && j < l.len() ==> #[trigger] start.corner(l, j)
            &&& forall|j: int| 0 <= j < i && j < l.len() ==> #[trigger] self.loop_step(l, j)
        }
    }

    /// A chain stays a chain, and its half-edges keep their targets, when
    /// one of them is made the `next` of the one before it.
    pub proof fn lemma_chain_kept(self, l: Seq<HalfEdgeHandle>, i: int)
        requires
            self.wf(),
            self.chain(l),
            0 <= i < l.len(),
            self.corner(l, i),
        ensures
            self.adjoinable(l[i], l[cyc_next(i, l.len() as int)]),
            self.adjacent_made(l[i], l[cyc_next(i, l.len() as int)]).chain(l),
            forall|j: int|
                0 <= j < l.len() ==> self.adjacent_made(
                    l[i],
                    l[cyc_next(i, l.len() as int)],
                ).target(#[trigger] l[j]) == self.target(l[j]),
            self.adjacent_made(l[i], l[cyc_next(i, l.len() as int)]).loop_step(l, i),
    {
        let n = l.len() as int;
        let hi = l[i];
        let ho = l[cyc_next(i, n)];
        assert(self.has(l[i]) && self.has(l[cyc_next(i, n)]));
        let t = self.adjacent_made(hi, ho);
        self.lemma_adjacent_made_grows(hi, ho);
        if self.next(hi) != ho {
            self.lemma_adjoined_wf(hi, ho);
        }
        assert forall|j: int| 0 <= j < l.len() implies {
            &&& t.has(#[trigger] l[j])
            &&& t.is_free(l[j])
            &&& t.target(l[j]) == t.origin(l[cyc_next(j, l.len() as int)])
            &&& t.target(l[j]) == self.target(l[j])
        } by {
            let k = cyc_next(j, n);
            assert(self.has(l[j]));
            assert(self.has(l[k]));
            self.lemma_half_edge(l[k]);
            assert(self.has(self.pair(l[k])));
        }
    }

    /// What making one half-edge of a chain the `next` of the one before
    /// it leaves as it was, where no two half-edges of the chain point to
    /// the same vertex: the corners behind, and the links made before.
    pub proof fn lemma_chain_step(self, start: Topology, l: Seq<HalfEdgeHandle>, i: int)
        requires
            self.wf(),
            self.chain(l),
            0 <= i < l.len(),
            self.corner(l, i),
            start.distinct_targets(l),
            forall|j: int| 0 <= j < l.len() ==> self.target(#[trigger] l[j]) == start.target(l[j]),
            forall|j: int| i <= j < l.len() ==> #[trigger] self.corner(l, j) == start.corner(l, j),
            forall|j: int| 0 <= j < i ==> #[trigger] self.loop_step(l, j),
        ensures
            forall|j: int|
                i + 1 <= j < l.len() ==> #[trigger] self.adjacent_made(
                    l[i],
                    l[cyc_next(i, l.len() as int)],
                ).corner(l, j) == start.corner(l, j),
            forall|j: int|
                0 <= j < i + 1 ==> #[trigger] self.adjacent_made(
                    l[i],
                    l[cyc_next(i, l.len() as int)],
                ).loop_step(l, j),
    {
        let n = l.len() as int;
        let hi = l[i];
        let ho = l[cyc_next(i, n)];
        let t = self.adjacent_made(hi, ho);
        self.lemma_chain_kept(l, i);
        assert forall|j: int| i + 1 <= j < l.len() implies #[trigger] t.corner(l, j)
            == start.corner(l, j) by {
            let k = cyc_next(j, n);
            assert(self.has(l[j]) && self.has(l[k]));
            assert(self.corner(l, j) == start.corner(l, j));
            assert(self.target(l[j]) != self.target(l[i])) by {
                assert(start.target(l[j]) != start.target(l[i]));
            }
            self.lemma_adjacent_made_elsewhere(hi, ho, l[j], l[k]);
            self.lemma_corner_kept(t, l[j], l[k]);
        }
        assert forall|j: int| 0 <= j < i + 1 implies #[trigger] t.loop_step(l, j) by {
            if j < i {
                assert(self.loop_step(l, j));
                assert(self.has(l[j]));
                assert(self.target(l[j]) != self.target(l[i])) by {
                    assert(start.target(l[j]) != start.target(l[i]));
                }
                self.lemma_adjacent_made_next(hi, ho, l[j]);
            }
        }
    }

    /// Dealing with the corner at place `i` leads from what holds before
    /// place `i` to what holds before place `i + 1`.
    pub proof fn lemma_corners_pending_step(self, start: Topology, l: Seq<HalfEdgeHandle>, i: int)
        requires
            self.wf(),
            self.chain(l),
            0 <= i < l.len(),
            self.corner(l, i),
            self.corners_pending(start, l, i),
        ensures
            self.adjacent_made(l[i], l[cyc_next(i, l.len() as int)]).corners_pending(
                start,
                l,
                i + 1,
            ),
    {
        let t = self.adjacent_made(l[i], l[cyc_next(i, l.len() as int)]);
        self.lemma_chain_kept(l, i);
        assert forall|j: int| 0 <= j < l.len() implies t.target(#[trigger] l[j]) == start.target(
            l[j],
        ) by {
            assert(self.target(l[j]) == start.target(l[j]));
        }
        if start.distinct_targets(l) {
            assert forall|j: int| 0 <= j < i implies #[trigger] self.loop_step(l, j) by {}
            self.lemma_chain_step(start, l, i);
            assert forall|j: int| 0 <= j < i + 1 && j < l.len() implies #[trigger] start.corner(
                l,
                j,
            ) by {
                if j == i {
                    assert(self.corner(l, i) == start.corner(l, i));
                }
            }
        }
    }

    /// What holds of the graph `self` while the corners of the chain `l`
    /// of the graph `start` are dealt with one after the other, when those
    /// before place `i` are done.
    pub open spec fn corner_progress(self, start: Topology, l: Seq<HalfEdgeHandle>, i: int) -> bool {
        &&& self == start.with_corners(l, i as nat)
        &&& start.corners_in_turn(l, i)
        &&& self.corners_pending(start, l, i)
        &&& self.grows_from(start)
        &&& self.keeps_faces(start)
        &&& self.half_edges.dom() == start.half_edges.dom()
        &&& self.vertices == start.vertices
        &&& self.edges == start.edges
        &&& self.chain(l)
    }

    /// Before any corner is dealt with, the graph is as it was.
    pub proof fn lemma_corner_progress_start(self, l: Seq<HalfEdgeHandle>)
        requires
            self.wf(),
            self.chain(l),
        ensures
            self.corner_progress(self, l, 0),
    {
        self.lemma_grows_reflexive();
        self.lemma_with_corners(l, 0);
    }

    /// What making one half-edge of a chain the `next` of the one before
    /// it keeps of what has grown from `start`.
    pub proof fn lemma_corner_grows(self, start: Topology, l: Seq<HalfEdgeHandle>, i: int)
        requires
            self.wf(),
            0 <= i < l.len(),
            self.chain(l),
            self.corner(l, i),
            self.grows_from(start),
            self.keeps_faces(start),
            self.half_edges.dom() == start.half_edges.dom(),
            self.vertices == start.vertices,
            self.edges == start.edges,
        ensures
            ({
                let t = self.adjacent_made(l[i], l[cyc_next(i, l.len() as int)]);
                &&& t.chain(l)
                &&& t.grows_from(start)
                &&& t.keeps_faces(start)
                &&& t.half_edges.dom() == start.half_edges.dom()
                &&& t.vertices == start.vertices
                &&& t.edges == start.edges
            }),
    {
        let t = self.adjacent_made(l[i], l[cyc_next(i, l.len() as int)]);
        self.lemma_chain_kept(l, i);
        self.lemma_adjacent_made_grows(l[i], l[cyc_next(i, l.len() as int)]);
        t.lemma_grows_transitive(self, start);
        t.lemma_keeps_faces_transitive(self, start);
    }

    /// Dealing with the corner at place `i` in its turn carries the
    /// account of the corners dealt with on to place `i + 1`.
    pub proof fn lemma_corner_turn(self, start: Topology, l: Seq<HalfEdgeHandle>, i: int)
        requires
            0 <= i < l.len(),
            self == start.with_corners(l, i as nat),
            start.corners_in_turn(l, i),
            self.corner(l, i),
        ensures
            self.adjacent_made(l[i], l[cyc_next(i, l.len() as int)]) == start.with_corners(
                l,
                (i + 1) as nat,
            ),
            start.corner_in_turn(l, i),
            start.corners_in_turn(l, i + 1),
    {
        start.lemma_with_corners(l, i as nat);
        assert forall|j: int| 0 <= j < i + 1 implies #[trigger] start.corner_in_turn(l, j) by {
            if j < i {
                assert(start.corner_in_turn(l, j));
            }
        }
    }

    /// Dealing with the corner at place `i` carries the progress on to
    /// place `i + 1`.
    pub proof fn lemma_corner_progress(self, start: Topology, l: Seq<HalfEdgeHandle>, i: int)
        requires
            self.wf(),
            start.wf(),
            0 <= i < l.len(),
            self.corner_progress(start, l, i),
            self.corner(l, i),
        ensures
            self.adjacent_made(l[i], l[cyc_next(i, l.len() as int)]).corner_progress(
                start,
                l,
                i + 1,
            ),
            start.corner_in_turn(l, i),
    {
        self.lemma_corner_grows(start, l, i);
        self.lemma_corners_pending_step(start, l, i);
        self.lemma_corner_turn(start, l, i);
    }

    /// What the progress up to place `i` says in the end, when all
    /// corners have been dealt with or the one at place `i` cannot be.
    pub proof fn lemma_corner_progress_end(self, now: Topology, l: Seq<HalfEdgeHandle>, i: int)
        requires
            self.wf(),
            0 <= i <= l.len(),
            now.corner_progress(self, l, i),
            i < l.len() ==> !self.corner_in_turn(l, i),
        ensures
            i == l.len() ==> self.corners_in_turn(l, l.len() as int),
            i < l.len() ==> !self.corners_in_turn(l, l.len() as int),
            self.distinct_targets(l) ==> (i == l.len() <==> self.all_corners(l)),
            self.distinct_targets(l) && i == l.len() ==> now.closed_loop(l),
    {
        if self.distinct_targets(l) {
            if i == l.len() {
                assert forall|j: int| 0 < j < l.len() implies #[trigger] l[j] != l[0] by {
                    assert(self.target(l[j]) == now.target(l[j]));
                    assert(self.target(l[0]) == now.target(l[0]));
                }
                assert forall|j: int| 0 <= j < l.len() implies #[trigger] self.corner(l, j) by {}
            } else {
                assert(now.corner(l, i) == self.corner(l, i));
                assert(now == self.with_corners(l, i as nat));
            }
        }
    }
}

} // verus!
