//! When a face can be added: what `new_face` asks of the graph and of the
//! vertices it is given, stated on the graph as it is before the call.

use crate::handle::{EdgeHandle, FaceHandle, HalfEdgeHandle, VertexHandle};
use crate::topology::{cyc_next, place_of, Topology};
use vstd::prelude::*;

verus! {

impl Topology {
    /// Whether a half-edge from `a` to `b` is there or can be made.
    pub open spec fn linkable(self, a: VertexHandle, b: VertexHandle) -> bool {
        self.half_edge_between(a, b) is Some || self.can_join(a, b)
    }

    /// Whether the half-edge from vertex `i` of `v` to the vertex behind
    /// it is there or can be made.
    pub open spec fn side_linkable(self, v: Seq<VertexHandle>, i: int) -> bool {
        self.linkable(v[i], v[cyc_next(i, v.len() as int)])
    }

    /// Whether all the half-edges along `v` are there or can be made.
    pub open spec fn all_linkable(self, v: Seq<VertexHandle>) -> bool {
        forall|i: int| 0 <= i < v.len() ==> #[trigger] self.side_linkable(v, i)
    }

    /// Whether the half-edge from vertex `i` of `v` to the vertex behind
    /// it, if it is there, lies on no face.
    pub open spec fn side_free(self, v: Seq<VertexHandle>, i: int) -> bool {
        self.half_edge_between(v[i], v[cyc_next(i, v.len() as int)]) matches Some(h)
            ==> self.is_free(h)
    }

    /// Whether the two half-edges that meet at the vertex behind vertex
    /// `i` of `v`, if both are there, can be made to follow each other.
    pub open spec fn corner_ready(self, v: Seq<VertexHandle>, i: int) -> bool {
        let j = cyc_next(i, v.len() as int);
        let k = cyc_next(j, v.len() as int);
        (self.half_edge_between(v[i], v[j]) is Some && self.half_edge_between(v[j], v[k]) is Some)
            ==> self.can_adjoin(
            self.half_edge_between(v[i], v[j])->Some_0,
            self.half_edge_between(v[j], v[k])->Some_0,
        )
    }

    /// Whether a face can be added along `v`, where `v` names at least
    /// three vertices and none twice: every side is there or can be made,
    /// no side that is there lies on a face, and at every corner where
    /// both sides are there they can be made to follow each other.
    pub open spec fn polygon_ready(self, v: Seq<VertexHandle>) -> bool {
        &&& self.all_linkable(v)
        &&& self.all_sides_free(v)
        &&& self.all_corners_ready(v)
    }

    /// Whether a face can be added on the two sides of one edge between
    /// the vertices `a` and `b`: the edge is there, lies on no face and is
    /// joined to nothing else, or it is not there and `a` and `b` are
    /// both isolated.
    pub open spec fn digon_ready(self, a: VertexHandle, b: VertexHandle) -> bool {
        match self.half_edge_between(a, b) {
            Some(x) => {
                &&& self.is_free(x)
                &&& self.is_free(self.pair(x))
                &&& self.next(x) == self.pair(x)
                &&& self.next(self.pair(x)) == x
            },
            None => {
                &&& self.has_vertex(a)
                &&& self.has_vertex(b)
                &&& self.rings[a].len() == 0
                &&& self.rings[b].len() == 0
            },
        }
    }

    /// Whether no side along `v` that is yet to be made ends at `u`.
    pub open spec fn untouched(self, v: Seq<VertexHandle>, n: int, u: VertexHandle) -> bool {
        forall|j: int|
            0 <= j < n ==> #[trigger] self.side_there(v, j) || (u != v[j] && u != v[cyc_next(
                j,
                v.len() as int,
            )])
    }

    /// Whether the half-edge from vertex `j` of `v` to the vertex behind
    /// it is there.
    pub open spec fn side_there(self, v: Seq<VertexHandle>, j: int) -> bool {
        self.half_edge_between(v[j], v[cyc_next(j, v.len() as int)]) is Some
    }

    /// Whether `self` is `before` with edges added: it has grown from
    /// `before` and has its vertices and faces; a new half-edge can leave
    /// a vertex if it could before; half-edges join only vertices that
    /// could be joined before; rings have not become shorter; and a corner
    /// of `before` at a vertex whose ring is as it was is as it was.
    pub open spec fn edges_added_to(self, before: Topology) -> bool {
        &&& self.grows_from(before)
        &&& self.keeps_faces(before)
        &&& self.vertices.dom() == before.vertices.dom()
        &&& forall|u: VertexHandle| #[trigger]
            before.has_vertex(u) ==> self.can_attach(u) == before.can_attach(u)
        &&& forall|u: VertexHandle| #[trigger]
            before.has_vertex(u) ==> self.rings[u].len() >= before.rings[u].len()
        &&& forall|a: VertexHandle, b: VertexHandle|
            (#[trigger] self.half_edge_between(a, b)) is Some ==> before.linkable(a, b)
        &&& forall|x: HalfEdgeHandle, y: HalfEdgeHandle|
            #![trigger before.adjoinable(x, y)]
            before.adjoinable(x, y) && self.rings[before.target(x)] == before.rings[before.target(
                x,
            )] ==> before.corner_kept(self, x, y)
    }

    /// A graph is itself with no edges added.
    pub proof fn lemma_edges_added_reflexive(self)
        requires
            self.wf(),
        ensures
            self.edges_added_to(self),
    {
        self.lemma_grows_reflexive();
        assert forall|x: HalfEdgeHandle, y: HalfEdgeHandle|
            #![trigger self.adjoinable(x, y)]
            self.adjoinable(x, y) implies self.corner_kept(self, x, y) by {
            self.lemma_half_edge(y);
            self.lemma_half_edge(self.pair(y));
        }
    }

    /// Whether two vertices can be joined does not depend on their order.
    pub proof fn lemma_linkable_symmetric(self, a: VertexHandle, b: VertexHandle)
        requires
            self.wf(),
        ensures
            self.linkable(a, b) == self.linkable(b, a),
    {
        self.lemma_between_symmetric(a, b);
    }

    /// One more edge added to a graph with edges added is a graph with
    /// edges added.
    pub proof fn lemma_edges_added_step(
        self,
        before: Topology,
        v1: VertexHandle,
        v2: VertexHandle,
        e: EdgeHandle,
        h1: HalfEdgeHandle,
        h2: HalfEdgeHandle,
    )
        requires
            before.wf(),
            self.wf(),
            self.edges_added_to(before),
            self.edge_fits(v1, v2, e, h1, h2),
        ensures
            self.with_edge(v1, v2, e, h1, h2).edges_added_to(before),
    {
        let t = self.with_edge(v1, v2, e, h1, h2);
        self.lemma_with_edge_wf(v1, v2, e, h1, h2);
        self.lemma_with_edge_grows(v1, v2, e, h1, h2);
        t.lemma_grows_transitive(self, before);
        t.lemma_keeps_faces_transitive(self, before);
        self.lemma_with_edge_ring_lengths(v1, v2, e, h1, h2);
        assert forall|u: VertexHandle| #[trigger] before.has_vertex(u) implies t.can_attach(u)
            == before.can_attach(u) by {
            self.lemma_with_edge_can_attach(v1, v2, e, h1, h2, u);
        }
        assert forall|u: VertexHandle| #[trigger] before.has_vertex(u) implies t.rings[u].len()
            >= before.rings[u].len() by {
            if u != v1 && u != v2 {
                assert(t.rings[u] == self.rings[u]);
            }
        }
        assert forall|a: VertexHandle, b: VertexHandle|
            (#[trigger] t.half_edge_between(a, b)) is Some implies before.linkable(a, b) by {
            self.lemma_with_edge_between(v1, v2, e, h1, h2, a, b);
            if (a == v1 && b == v2) || (a == v2 && b == v1) {
                assert(before.has_vertex(v1) && before.has_vertex(v2));
                before.lemma_linkable_symmetric(v1, v2);
                if before.half_edge_between(v1, v2) is None {
                    assert(before.can_join(v1, v2));
                }
            } else {
                assert(self.half_edge_between(a, b) is Some);
            }
        }
        assert forall|x: HalfEdgeHandle, y: HalfEdgeHandle|
            #![trigger before.adjoinable(x, y)]
            before.adjoinable(x, y) && t.rings[before.target(x)] == before.rings[before.target(
                x,
            )] implies before.corner_kept(t, x, y) by {
            let w = before.target(x);
            before.lemma_half_edge(x);
            before.lemma_half_edge(y);
            assert(before.has_vertex(w));
            if w == v1 || w == v2 {
                assert(t.rings[w].len() > before.rings[w].len());
            } else {
                assert(t.rings[w] == self.rings[w]);
                assert(before.corner_kept(self, x, y));
                assert(self.adjoinable(x, y)) by {
                    assert(before.has(before.pair(y)));
                }
                self.lemma_with_edge_elsewhere(v1, v2, e, h1, h2, x, y);
                assert(before.origin(y) == w);
                assert(self.origin(y) == w);
            }
        }
    }

    /// Whether two vertices can be joined in a graph with edges added is
    /// whether they could be joined before.
    pub proof fn lemma_linkable_step(self, now: Topology, a: VertexHandle, b: VertexHandle)
        requires
            self.wf(),
            now.wf(),
            now.edges_added_to(self),
        ensures
            now.linkable(a, b) == self.linkable(a, b),
    {
        if self.half_edge_between(a, b) is Some {
            let h = self.half_edge_between(a, b)->Some_0;
            now.lemma_grows_joins(self, h, a, b);
        }
        if now.half_edge_between(a, b) is Some {
            assert(self.linkable(a, b));
        }
        if self.has_vertex(a) && self.has_vertex(b) {
            assert(now.can_attach(a) == self.can_attach(a));
            assert(now.can_attach(b) == self.can_attach(b));
        }
        assert(now.has_vertex(a) == self.has_vertex(a));
        assert(now.has_vertex(b) == self.has_vertex(b));
    }

    /// The half-edges along `v` in a graph with edges added: each is the
    /// one that was there before, or else it and its pair are new and lie
    /// on no face.
    pub proof fn lemma_polygon_sides(
        self,
        now: Topology,
        v: Seq<VertexHandle>,
        l: Seq<HalfEdgeHandle>,
        i: int,
    )
        requires
            self.wf(),
            now.wf(),
            now.edges_added_to(self),
            now.follows(l, v),
            0 <= i < v.len(),
        ensures
            self.side_free(v, i) == now.is_free(l[i]),
            self.half_edge_between(v[i], v[cyc_next(i, v.len() as int)]) matches Some(h) ==> l[i]
                == h && self.has(h) && self.is_free(h) == now.is_free(h),
            self.half_edge_between(v[i], v[cyc_next(i, v.len() as int)]) is None ==> !self.has(
                l[i],
            ) && now.is_free(now.pair(l[i])) && now.is_free(l[i]),
    {
        let a = v[i];
        let b = v[cyc_next(i, v.len() as int)];
        let x = l[i];
        assert(now.joins(x, a, b));
        now.lemma_half_edge(x);
        if self.half_edge_between(a, b) is Some {
            let h = self.half_edge_between(a, b)->Some_0;
            now.lemma_grows_joins(self, h, a, b);
            now.law_simple(h, x);
        } else {
            if self.has(x) {
                self.lemma_half_edge(x);
                assert(self.has(self.pair(x)));
                assert(self.joins(x, a, b));
            }
            let q = now.pair(x);
            if self.has(q) {
                self.lemma_half_edge(q);
            }
        }
    }

    /// The corners along `v` in a graph with edges added, where `v` names
    /// at least three vertices and none twice, all sides lie on no face,
    /// and the rings of the vertices at which no side was made are as
    /// they were: a corner can be dealt with exactly if it was ready
    /// before.
    pub proof fn lemma_polygon_corners(
        self,
        now: Topology,
        v: Seq<VertexHandle>,
        l: Seq<HalfEdgeHandle>,
        i: int,
    )
        requires
            self.wf(),
            now.wf(),
            now.edges_added_to(self),
            now.follows(l, v),
            v.no_duplicates(),
            v.len() >= 3,
            forall|j: int| 0 <= j < l.len() ==> now.is_free(#[trigger] l[j]),
            forall|u: VertexHandle|
                self.untouched(v, v.len() as int, u) ==> now.rings[u] == self.rings[u],
            0 <= i < v.len(),
        ensures
            now.corner(l, i) == self.corner_ready(v, i),
    {
        let n = v.len() as int;
        let j = cyc_next(i, n);
        let k = cyc_next(j, n);
        let x = l[i];
        let y = l[j];
        self.lemma_polygon_sides(now, v, l, i);
        self.lemma_polygon_sides(now, v, l, j);
        assert(now.joins(x, v[i], v[j]));
        assert(now.joins(y, v[j], v[k]));
        assert(now.is_free(l[i]) && now.is_free(l[j]));
        now.lemma_half_edge(x);
        now.lemma_half_edge(y);
        assert(now.adjoinable(x, y));
        assert(x != now.pair(y)) by {
            assert(v[i] != v[k]);
        }
        if self.half_edge_between(v[i], v[j]) is Some && self.half_edge_between(v[j], v[k]) is Some {
            let w = v[j];
            self.lemma_half_edge(x);
            self.lemma_half_edge(y);
            assert(self.has(self.pair(y)));
            assert(self.adjoinable(x, y));
            assert(self.untouched(v, n, w)) by {
                assert forall|m: int| 0 <= m < n implies #[trigger] self.side_there(v, m) || (w
                    != v[m] && w != v[cyc_next(m, n)]) by {
                    if w == v[m] {
                        assert(m == j);
                    } else if w == v[cyc_next(m, n)] {
                        assert(cyc_next(m, n) == j);
                        assert(m == i);
                    }
                }
            }
            assert(self.corner_kept(now, x, y));
            self.lemma_corner_kept(now, x, y);
        } else if self.half_edge_between(v[i], v[j]) is None {
            now.lemma_can_adjoin_free_in(x, y);
        } else {
            now.lemma_can_adjoin_free_out(x, y);
        }
    }

    /// The half-edges along `v`, where `v` names no vertex twice, point to
    /// different vertices each, and form a chain if they lie on no face.
    pub proof fn lemma_polygon_chain(self, v: Seq<VertexHandle>, l: Seq<HalfEdgeHandle>)
        requires
            self.wf(),
            self.follows(l, v),
            forall|j: int| 0 <= j < l.len() ==> self.is_free(#[trigger] l[j]),
        ensures
            self.chain(l),
            v.no_duplicates() ==> self.distinct_targets(l),
    {
        let n = v.len() as int;
        assert forall|i: int| 0 <= i < l.len() implies {
            &&& self.has(#[trigger] l[i])
            &&& self.is_free(l[i])
            &&& self.target(l[i]) == self.origin(l[cyc_next(i, l.len() as int)])
        } by {
            let j = cyc_next(i, n);
            assert(self.joins(l[i], v[i], v[j]));
            assert(self.joins(l[j], v[j], v[cyc_next(j, n)]));
        }
        if v.no_duplicates() {
            assert forall|i: int, j: int|
                0 <= i < l.len() && 0 <= j < l.len() && i != j implies self.target(
                #[trigger] l[i],
            ) != self.target(#[trigger] l[j]) by {
                assert(self.joins(l[i], v[i], v[cyc_next(i, n)]));
                assert(self.joins(l[j], v[j], v[cyc_next(j, n)]));
                assert(cyc_next(i, n) != cyc_next(j, n));
            }
        }
    }

    /// Whether all sides that are there are free.
    pub open spec fn all_sides_free(self, v: Seq<VertexHandle>) -> bool {
        forall|i: int| 0 <= i < v.len() ==> #[trigger] self.side_free(v, i)
    }

    /// Whether all corners are ready.
    pub open spec fn all_corners_ready(self, v: Seq<VertexHandle>) -> bool {
        forall|i: int| 0 <= i < v.len() ==> #[trigger] self.corner_ready(v, i)
    }

    /// The half-edges along `v` in a graph with edges added all lie on no
    /// face exactly if the sides that were there before did.
    pub proof fn lemma_polygon_free(
        self,
        now: Topology,
        v: Seq<VertexHandle>,
        l: Seq<HalfEdgeHandle>,
    )
        requires
            self.wf(),
            now.wf(),
            now.edges_added_to(self),
            now.follows(l, v),
        ensures
            self.all_sides_free(v) == (forall|j: int|
                0 <= j < l.len() ==> now.is_free(#[trigger] l[j])),
    {
        assert forall|i: int| 0 <= i < v.len() implies #[trigger] self.side_free(v, i)
            == now.is_free(l[i]) by {
            self.lemma_polygon_sides(now, v, l, i);
        }
        if self.all_sides_free(v) {
            assert forall|j: int| 0 <= j < l.len() implies now.is_free(#[trigger] l[j]) by {
                assert(self.side_free(v, j));
            }
        }
    }

    /// Whether the corners along `v` can all be dealt with in a graph with
    /// edges added, where `v` names at least three vertices and none
    /// twice: exactly if they were all ready before.
    pub proof fn lemma_polygon_verdict(
        self,
        now: Topology,
        v: Seq<VertexHandle>,
        l: Seq<HalfEdgeHandle>,
    )
        requires
            self.wf(),
            now.wf(),
            now.edges_added_to(self),
            now.follows(l, v),
            forall|j: int| 0 <= j < l.len() ==> now.is_free(#[trigger] l[j]),
            forall|u: VertexHandle|
                self.untouched(v, v.len() as int, u) ==> now.rings[u] == self.rings[u],
        ensures
            now.chain(l),
            v.no_duplicates() ==> now.distinct_targets(l),
            v.no_duplicates() && v.len() >= 3 ==> now.all_corners(l) == self.all_corners_ready(v),
    {
        now.lemma_polygon_chain(v, l);
        if v.no_duplicates() && v.len() >= 3 {
            assert forall|i: int| 0 <= i < v.len() implies #[trigger] now.corner(l, i)
                == self.corner_ready(v, i) by {
                self.lemma_polygon_corners(now, v, l, i);
            }
            if now.all_corners(l) {
                assert forall|i: int| 0 <= i < v.len() implies #[trigger] self.corner_ready(
                    v,
                    i,
                ) by {
                    assert(now.corner(l, i));
                }
            }
            if self.all_corners_ready(v) {
                assert forall|i: int| 0 <= i < l.len() implies #[trigger] now.corner(l, i) by {
                    assert(self.corner_ready(v, i));
                }
            }
        }
    }

    /// The graph after the first `i` sides along `v` have been found or
    /// made, one after the other: a side that is there is left alone; one
    /// that is not is added as an edge whose handles are those that `l`
    /// and `fin` name for it, `l` listing the half-edges along `v` and
    /// `fin` being the graph in the end.
    pub open spec fn with_sides(
        self,
        v: Seq<VertexHandle>,
        l: Seq<HalfEdgeHandle>,
        fin: Topology,
        i: nat,
    ) -> Topology
        decreases i,
    {
        if i == 0 {
            self
        } else {
            let t = self.with_sides(v, l, fin, (i - 1) as nat);
            let a = v[i - 1];
            let b = v[cyc_next(i - 1, v.len() as int)];
            if t.half_edge_between(a, b) is Some {
                t
            } else {
                t.with_edge(a, b, fin.edge(l[i - 1]), l[i - 1], fin.pair(l[i - 1]))
            }
        }
    }

    /// The graph after the corners at the first `i` places of the chain
    /// `l` have been dealt with, one after the other.
    #[verifier::opaque]
    pub open spec fn with_corners(self, l: Seq<HalfEdgeHandle>, i: nat) -> Topology
        decreases i,
    {
        if i == 0 {
            self
        } else {
            let t = self.with_corners(l, (i - 1) as nat);
            t.adjacent_made(l[i - 1], l[cyc_next(i - 1, l.len() as int)])
        }
    }

    /// How `with_corners` goes on from one place to the next.
    pub proof fn lemma_with_corners(self, l: Seq<HalfEdgeHandle>, i: nat)
        ensures
            self.with_corners(l, 0) == self,
            self.with_corners(l, i + 1) == self.with_corners(l, i).adjacent_made(
                l[i as int],
                l[cyc_next(i as int, l.len() as int)],
            ),
    {
        reveal_with_fuel(Topology::with_corners, 2);
    }

    /// Whether the corner at place `i` of the chain `l` can be dealt with
    /// once those before it have been.
    pub open spec fn corner_in_turn(self, l: Seq<HalfEdgeHandle>, i: int) -> bool {
        self.with_corners(l, i as nat).corner(l, i)
    }

    /// Whether the corners at the first `n` places of the chain `l` can be
    /// dealt with one after the other.
    pub open spec fn corners_in_turn(self, l: Seq<HalfEdgeHandle>, n: int) -> bool {
        forall|i: int| 0 <= i < n ==> #[trigger] self.corner_in_turn(l, i)
    }

    /// What `with_sides` gives depends only on the first `i` half-edges of
    /// `l` and on the edges and pairs that `fin` names for them.
    pub proof fn lemma_with_sides_agrees(
        self,
        v: Seq<VertexHandle>,
        l: Seq<HalfEdgeHandle>,
        fin: Topology,
        l2: Seq<HalfEdgeHandle>,
        fin2: Topology,
        i: nat,
    )
        requires
            i <= l.len(),
            i <= l2.len(),
            forall|j: int|
                0 <= j < i ==> #[trigger] l[j] == l2[j] && fin.edge(l[j]) == fin2.edge(l[j])
                    && fin.pair(l[j]) == fin2.pair(l[j]),
        ensures
            self.with_sides(v, l, fin, i) == self.with_sides(v, l2, fin2, i),
        decreases i,
    {
        if i > 0 {
            self.lemma_with_sides_agrees(v, l, fin, l2, fin2, (i - 1) as nat);
            assert(l[i - 1] == l2[i - 1]);
        }
    }

    /// What `new_face` has done when it succeeds: `collected` is the graph
    /// after the sides along `v` have been found or made, `ordered` the
    /// graph after its corners have been dealt with, and `fin` the graph
    /// after the loop `l` has been closed into the face `f`.
    pub proof fn lemma_face_closed(
        self,
        collected: Topology,
        ordered: Topology,
        fin: Topology,
        v: Seq<VertexHandle>,
        l: Seq<HalfEdgeHandle>,
        f: FaceHandle,
    )
        requires
            self.wf(),
            collected.wf(),
            ordered.wf(),
            collected.edges_added_to(self),
            collected.follows(l, v),
            collected == self.with_sides(v, l, collected, v.len()),
            ordered.grows_from(collected),
            ordered.keeps_faces(collected),
            ordered.vertices == collected.vertices,
            ordered == collected.with_corners(l, l.len()),
            ordered.face_fits(f, l),
            fin == ordered.with_face(f, l),
        ensures
            fin.loops[f] == l,
            fin.grows_from(self),
            fin.vertices.dom() == self.vertices.dom(),
            fin == self.with_sides(v, l, fin, v.len()).with_corners(l, l.len()).with_face(f, l),
            !self.has_face(f),
            fin.faces == self.faces.insert(f, l[0]),
            fin.follows(l, v),
            fin.sides_along(v) == l,
            self.with_sides(v, fin.sides_along(v), fin, v.len()) == collected,
            forall|h: HalfEdgeHandle| #[trigger]
                self.has(h) ==> fin.face(h) == (if l.contains(h) {
                    Some(f)
                } else {
                    self.face(h)
                }),
    {
        ordered.lemma_with_face_wf(f, l);
        ordered.lemma_with_face_links(f, l);
        ordered.lemma_with_face_grows(f, l);
        ordered.lemma_grows_transitive(collected, self);
        fin.lemma_grows_transitive(ordered, self);
        assert(!self.has_face(f)) by {
            if self.has_face(f) {
                assert(collected.has_face(f));
                assert(ordered.has_face(f));
            }
        }
        assert(fin.faces =~= self.faces.insert(f, l[0]));
        assert forall|j: int| 0 <= j < l.len() implies fin.joins(
            #[trigger] l[j],
            v[j],
            v[cyc_next(j, v.len() as int)],
        ) by {
            let a = v[j];
            let b = v[cyc_next(j, v.len() as int)];
            ordered.lemma_grows_joins(collected, l[j], a, b);
            fin.lemma_grows_joins(ordered, l[j], a, b);
        }
        assert forall|h: HalfEdgeHandle| #[trigger] self.has(h) implies fin.face(h) == (
        if l.contains(h) {
            Some(f)
        } else {
            self.face(h)
        }) by {
            assert(collected.has(h));
            assert(ordered.has(h));
        }
        assert forall|j: int| 0 <= j < v.len() implies #[trigger] l[j] == l[j] && collected.edge(
            l[j],
        ) == fin.edge(l[j]) && collected.pair(l[j]) == fin.pair(l[j]) by {
            assert(collected.joins(l[j], v[j], v[cyc_next(j, v.len() as int)]));
            assert(ordered.has(l[j]));
        }
        self.lemma_with_sides_agrees(v, l, collected, l, fin, v.len());
        fin.lemma_sides_along(v, l);
    }

    /// No half-edge on no face lies between a half-edge and itself.
    pub proof fn lemma_free_between_same(self, h: HalfEdgeHandle)
        requires
            self.wf(),
            self.has(h),
        ensures
            self.free_between(h, h) is None,
    {
        self.lemma_half_edge(h);
        let q = self.pair(h);
        self.lemma_ring_from(q);
        let r = self.ring_from(q);
        assert(r.contains(q));
        assert(place_of(r, q) == 0);
        let inc = self.incoming_before(h, h);
        assert(inc.len() == 0);
        self.lemma_free_place_none(inc);
    }

    /// Two half-edges that are each other's pair can be made to follow
    /// each other only if they do already.
    pub proof fn lemma_can_adjoin_pair(self, x: HalfEdgeHandle)
        requires
            self.wf(),
            self.has(x),
        ensures
            self.can_adjoin(x, self.pair(x)) == (self.next(x) == self.pair(x)),
    {
        self.lemma_half_edge(x);
        self.lemma_free_between_same(x);
    }

    /// A face on the two sides of one edge needs what every face needs.
    pub proof fn lemma_digon_needs(self, v: Seq<VertexHandle>)
        requires
            self.wf(),
            v.len() == 2,
            v[0] != v[1],
            self.digon_ready(v[0], v[1]),
        ensures
            self.all_linkable(v),
            self.all_sides_free(v),
    {
        let a = v[0];
        let b = v[1];
        self.lemma_linkable_symmetric(a, b);
        self.lemma_between_symmetric(a, b);
        if self.half_edge_between(a, b) is Some {
            let x = self.half_edge_between(a, b)->Some_0;
            self.lemma_joins_pair(x, a, b);
            self.lemma_between_unique(self.pair(x), b, a);
        }
        assert forall|i: int| 0 <= i < v.len() implies #[trigger] self.side_linkable(v, i) by {}
        assert forall|i: int| 0 <= i < v.len() implies #[trigger] self.side_free(v, i) by {}
    }

    /// After an edge has been added, each of its half-edges is followed by
    /// the other exactly if the vertex it points to was isolated.
    pub proof fn lemma_with_edge_turns(
        self,
        v1: VertexHandle,
        v2: VertexHandle,
        e: EdgeHandle,
        h1: HalfEdgeHandle,
        h2: HalfEdgeHandle,
    )
        requires
            self.wf(),
            self.edge_fits(v1, v2, e, h1, h2),
        ensures
            (self.with_edge(v1, v2, e, h1, h2).next(h1) == h2) == (self.rings[v2].len() == 0),
            (self.with_edge(v1, v2, e, h1, h2).next(h2) == h1) == (self.rings[v1].len() == 0),
            self.with_edge(v1, v2, e, h1, h2).pair(h1) == h2,
    {
        self.lemma_with_edge_links(v1, v2, e, h1, h2);
        self.lemma_vertex(v1);
        self.lemma_vertex(v2);
        self.lemma_free_place(self.rings[v1]);
        self.lemma_free_place(self.rings[v2]);
        if self.free_place(self.rings[v1]) is Some {
            self.lemma_attach_site(v1);
        }
        if self.free_place(self.rings[v2]) is Some {
            self.lemma_attach_site(v2);
        }
    }

    /// Whether the two corners of a face on the two sides of one edge can
    /// be dealt with, once its sides have been found or made and lie on
    /// no face.
    pub proof fn lemma_digon_corners(
        self,
        now: Topology,
        v: Seq<VertexHandle>,
        l: Seq<HalfEdgeHandle>,
    )
        requires
            self.wf(),
            now.wf(),
            now.edges_added_to(self),
            now.follows(l, v),
            now == self.with_sides(v, l, now, 2),
            v.len() == 2,
            v[0] != v[1],
            forall|j: int| 0 <= j < l.len() ==> now.is_free(#[trigger] l[j]),
            forall|u: VertexHandle|
                self.untouched(v, v.len() as int, u) ==> now.rings[u] == self.rings[u],
            self.all_linkable(v),
        ensures
            now.all_corners(l) == self.digon_ready(v[0], v[1]),
    {
        let a = v[0];
        let b = v[1];
        let x = l[0];
        let y = l[1];
        assert(now.joins(x, a, b));
        assert(now.joins(y, b, a));
        assert(now.is_free(l[0]) && now.is_free(l[1]));
        now.lemma_half_edge(x);
        now.lemma_joins_pair(x, a, b);
        now.law_simple(now.pair(x), y);
        now.lemma_can_adjoin_pair(x);
        now.lemma_can_adjoin_pair(y);
        assert(now.all_corners(l) == (now.next(x) == y && now.next(y) == x)) by {
            if now.all_corners(l) {
                assert(now.corner(l, 0));
                assert(now.corner(l, 1));
            }
            if now.next(x) == y && now.next(y) == x {
                assert forall|i: int| 0 <= i < l.len() implies #[trigger] now.corner(l, i) by {}
            }
        }
        self.lemma_polygon_sides(now, v, l, 0);
        self.lemma_polygon_sides(now, v, l, 1);
        self.lemma_between_symmetric(a, b);
        reveal_with_fuel(Topology::with_sides, 3);
        if self.half_edge_between(a, b) is Some {
            self.lemma_half_edge(x);
            self.lemma_half_edge(y);
            assert(self.side_there(v, 0) && self.side_there(v, 1));
            assert(self.untouched(v, 2, a)) by {
                assert forall|m: int| 0 <= m < 2 implies #[trigger] self.side_there(v, m) || (a
                    != v[m] && a != v[cyc_next(m, 2)]) by {
                    assert(self.side_there(v, m));
                }
            }
            assert(self.untouched(v, 2, b)) by {
                assert forall|m: int| 0 <= m < 2 implies #[trigger] self.side_there(v, m) || (b
                    != v[m] && b != v[cyc_next(m, 2)]) by {
                    assert(self.side_there(v, m));
                }
            }
            assert(self.has(self.pair(x)) && self.has(self.pair(y)));
            assert(self.adjoinable(x, y));
            assert(self.adjoinable(y, x));
            assert(self.corner_kept(now, x, y));
            assert(self.corner_kept(now, y, x));
        } else {
            let e = now.edge(x);
            let t1 = self.with_edge(a, b, e, x, now.pair(x));
            assert(self.with_sides(v, l, now, 1) == t1);
            assert(self.side_linkable(v, 0));
            assert(self.can_join(a, b));
            assert(!self.has(now.pair(x))) by {
                if self.has(now.pair(x)) {
                    self.lemma_half_edge(now.pair(x));
                }
            }
            assert(self.edge_fits(a, b, e, x, now.pair(x))) by {
                if self.has_edge(e) {
                    self.lemma_edge(e);
                    let g = self.edges[e];
                    assert(now.has(g) && now.edge(g) == e);
                    now.law_two_half_edges(x, g);
                }
            }
            self.law_edge_once_ends(a, b, e, x, now.pair(x));
            assert(now == t1);
            self.lemma_with_edge_turns(a, b, e, x, now.pair(x));
        }
    }

    /// The half-edges that lead along the vertices of `v` and back to the
    /// first, where the graph has them.
    pub open spec fn sides_along(self, v: Seq<VertexHandle>) -> Seq<HalfEdgeHandle> {
        Seq::new(
            v.len(),
            |i: int| self.half_edge_between(v[i], v[cyc_next(i, v.len() as int)])->Some_0,
        )
    }

    /// Whether a face can be added along `v`, told from the graph `self`
    /// before the attempt and the graph `fin` after it, which names the
    /// half-edges along `v`: `v` holds at least two vertices; every side
    /// is there or can be made; no side that is there lies on a face;
    /// once the sides have been found or made, the corners can be dealt
    /// with one after the other; and the half-edges along `v` then form
    /// one closed loop.
    pub open spec fn face_ready(self, fin: Topology, v: Seq<VertexHandle>) -> bool {
        let l = fin.sides_along(v);
        let sided = self.with_sides(v, l, fin, v.len());
        &&& v.len() >= 2
        &&& self.all_linkable(v)
        &&& self.all_sides_free(v)
        &&& sided.corners_in_turn(l, l.len() as int)
        &&& sided.with_corners(l, l.len()).closed_loop(l)
    }

    /// The half-edges that lead along `v` are the half-edges along `v`.
    pub proof fn lemma_sides_along(self, v: Seq<VertexHandle>, l: Seq<HalfEdgeHandle>)
        requires
            self.wf(),
            self.follows(l, v),
        ensures
            self.sides_along(v) == l,
    {
        let s = self.sides_along(v);
        assert forall|i: int| 0 <= i < l.len() implies s[i] == l[i] by {
            assert(self.joins(l[i], v[i], v[cyc_next(i, v.len() as int)]));
            self.lemma_between_unique(l[i], v[i], v[cyc_next(i, v.len() as int)]);
        }
        assert(s =~= l);
    }

    /// A graph that has grown from the graph in which the sides along `v`
    /// were found or made names those sides and that graph.
    pub proof fn lemma_sides_named(
        self,
        collected: Topology,
        fin: Topology,
        v: Seq<VertexHandle>,
        l: Seq<HalfEdgeHandle>,
    )
        requires
            collected.wf(),
            fin.wf(),
            collected.follows(l, v),
            collected == self.with_sides(v, l, collected, v.len()),
            fin.grows_from(collected),
        ensures
            fin.follows(l, v),
            fin.sides_along(v) == l,
            self.with_sides(v, fin.sides_along(v), fin, v.len()) == collected,
    {
        assert forall|j: int| 0 <= j < l.len() implies fin.joins(
            #[trigger] l[j],
            v[j],
            v[cyc_next(j, v.len() as int)],
        ) by {
            fin.lemma_grows_joins(collected, l[j], v[j], v[cyc_next(j, v.len() as int)]);
        }
        fin.lemma_sides_along(v, l);
        assert forall|j: int| 0 <= j < v.len() implies #[trigger] l[j] == l[j] && collected.edge(
            l[j],
        ) == fin.edge(l[j]) && collected.pair(l[j]) == fin.pair(l[j]) by {
            assert(collected.joins(l[j], v[j], v[cyc_next(j, v.len() as int)]));
        }
        self.lemma_with_sides_agrees(v, l, collected, l, fin, v.len());
    }

    /// Whether side `k` along `v` is the first that is neither there nor
    /// can be made.
    pub open spec fn unlinkable_at(self, v: Seq<VertexHandle>, k: int) -> bool {
        &&& 0 <= k < v.len()
        &&& !self.side_linkable(v, k)
        &&& forall|j: int| 0 <= j < k ==> #[trigger] self.side_linkable(v, j)
    }

    /// The first side along `v` that is neither there nor can be made,
    /// where there is one.
    pub open spec fn first_unlinkable(self, v: Seq<VertexHandle>) -> int {
        choose|k: int| self.unlinkable_at(v, k)
    }

    /// Whether the corner at place `k` of the chain `l` is the first that
    /// cannot be dealt with in its turn.
    pub open spec fn stuck_at(self, l: Seq<HalfEdgeHandle>, k: int) -> bool {
        &&& 0 <= k < l.len()
        &&& !self.corner_in_turn(l, k)
        &&& self.corners_in_turn(l, k)
    }

    /// The first corner of the chain `l` that cannot be dealt with in its
    /// turn, where there is one.
    pub open spec fn first_stuck(self, l: Seq<HalfEdgeHandle>) -> int {
        choose|k: int| self.stuck_at(l, k)
    }

    /// The graph that an attempt to add a face along `v` leaves behind
    /// when it fails, told from the graph `self` before the attempt and
    /// the graph `fin` after it, which names the half-edges along `v`.
    /// The sides are found or made up to the first that can be neither;
    /// if all are there and lie on no face, the corners are dealt with up
    /// to the first that cannot be.
    pub open spec fn attempted(self, fin: Topology, v: Seq<VertexHandle>) -> Topology {
        let l = fin.sides_along(v);
        if v.len() < 2 {
            self
        } else if !self.all_linkable(v) {
            self.with_sides(v, l, fin, self.first_unlinkable(v) as nat)
        } else {
            let sided = self.with_sides(v, l, fin, v.len());
            if !self.all_sides_free(v) {
                sided
            } else if !sided.corners_in_turn(l, l.len() as int) {
                sided.with_corners(l, sided.first_stuck(l) as nat)
            } else {
                sided.with_corners(l, l.len())
            }
        }
    }

    /// There is only one first side that is neither there nor can be
    /// made.
    pub proof fn lemma_first_unlinkable(self, v: Seq<VertexHandle>, k: int)
        requires
            self.unlinkable_at(v, k),
        ensures
            self.first_unlinkable(v) == k,
            !self.all_linkable(v),
    {
        let c = self.first_unlinkable(v);
        if c < k {
            assert(self.side_linkable(v, c));
        }
        if k < c {
            assert(self.side_linkable(v, k));
        }
    }

    /// There is only one first corner that cannot be dealt with in its
    /// turn.
    pub proof fn lemma_first_stuck(self, l: Seq<HalfEdgeHandle>, k: int)
        requires
            self.stuck_at(l, k),
        ensures
            self.first_stuck(l) == k,
            !self.corners_in_turn(l, l.len() as int),
    {
        let c = self.first_stuck(l);
        if c < k {
            assert(self.corner_in_turn(l, c));
        }
        if k < c {
            assert(self.corner_in_turn(l, k));
        }
    }

    /// The graph after the first `i` sides along `v` have been found or
    /// made, as the graph in the end names it.
    pub proof fn lemma_sides_so_far(
        self,
        now: Topology,
        v: Seq<VertexHandle>,
        l: Seq<HalfEdgeHandle>,
        i: int,
    )
        requires
            now.wf(),
            0 <= i <= v.len(),
            l.len() == i,
            now == self.with_sides(v, l, now, i as nat),
            forall|j: int|
                0 <= j < i ==> now.joins(#[trigger] l[j], v[j], v[cyc_next(j, v.len() as int)]),
        ensures
            now == self.with_sides(v, now.sides_along(v), now, i as nat),
    {
        let s = now.sides_along(v);
        assert forall|j: int| 0 <= j < i implies #[trigger] l[j] == s[j] && now.edge(l[j])
            == now.edge(l[j]) && now.pair(l[j]) == now.pair(l[j]) by {
            now.lemma_between_unique(l[j], v[j], v[cyc_next(j, v.len() as int)]);
        }
        self.lemma_with_sides_agrees(v, l, now, s, now, i as nat);
    }
}

} // verus!
