//! The topology builder: the operations that add vertices, edges and faces
//! to a graph and keep it well formed.

use crate::data::Data;
use crate::graph::HalfEdgeGraph;
use crate::handle::{EdgeHandle, FaceHandle, HalfEdgeHandle, VertexHandle};
use crate::slots::SLOT_LIMIT;
use crate::topology::{cyc_next, Links, Topology};
use crate::windows::circular_pairs;
use vstd::prelude::*;

verus! {

impl<D: Data> HalfEdgeGraph<D> {
    /// Adds an isolated vertex that carries `data` and returns its handle.
    ///
    /// The arena of vertices takes fewer than `SLOT_LIMIT` entries.
    pub fn new_vertex(&mut self, data: D::Vertex) -> (v: VertexHandle)
        requires
            old(self).wf(),
            old(self).vertex_count() < SLOT_LIMIT,
        ensures
            final(self).wf(),
            !old(self)@.has_vertex(v),
            final(self)@ == old(self)@.with_vertex(v),
            final(self)@.grows_from(old(self)@),
            final(self)@.keeps_faces(old(self)@),
            final(self).vertex_data() == old(self).vertex_data().insert(v, data),
            final(self).edge_data() == old(self).edge_data(),
            final(self).face_data() == old(self).face_data(),
            final(self).half_edge_data() == old(self).half_edge_data(),
            final(self).vertex_order() == old(self).vertex_order().push(v),
            final(self).edge_order() == old(self).edge_order(),
            final(self).face_order() == old(self).face_order(),
            final(self).half_edge_order() == old(self).half_edge_order(),
            final(self).vertex_count() == old(self).vertex_count() + 1,
            final(self).edge_count() == old(self).edge_count(),
            final(self).face_count() == old(self).face_count(),
            final(self).half_edge_count() == old(self).half_edge_count(),
    {
        let v = self.alloc_vertex(data);
        let ghost rings = old(self)@.rings.insert(v, Seq::empty());
        self.set_rings(Ghost(rings));
        proof {
            old(self)@.lemma_with_vertex_wf(v);
            old(self)@.lemma_with_vertex_grows(v);
        }
        v
    }

    /// The half-edge that leads from `v1` to `v2`, if there is one.
    ///
    /// Walks the ring of `v1`; a handle that names no vertex finds nothing.
    pub fn find_half_edge(&self, v1: VertexHandle, v2: VertexHandle) -> (r: Option<
        HalfEdgeHandle,
    >)
        requires
            self.wf(),
        ensures
            r == self@.half_edge_between(v1, v2),
    {
        if !self.contains_vertex(v1) {
            proof {
                self@.lemma_between_none(v1, v2);
            }
            return None;
        }
        let head = match self.hedge_of_vertex(v1) {
            Some(head) => head,
            None => {
                proof {
                    self@.lemma_vertex(v1);
                    self@.lemma_between_none(v1, v2);
                }
                return None;
            },
        };
        let ghost ring = self@.rings[v1];
        let ghost mut i: int = 0;
        let mut current = head;
        proof {
            self@.lemma_vertex(v1);
        }
        loop
            invariant
                self.wf(),
                self@.has_vertex(v1),
                ring == self@.rings[v1],
                0 <= i < ring.len(),
                current == ring[i],
                head == ring[0],
                forall|j: int| 0 <= j < i ==> self@.target(#[trigger] ring[j]) != v2,
            decreases ring.len() - i,
        {
            proof {
                self@.lemma_vertex(v1);
                assert(self@.has(ring[i]));
                self@.lemma_half_edge(current);
            }
            if self.target_of(current) == v2 {
                proof {
                    self@.lemma_between_unique(current, v1, v2);
                }
                return Some(current);
            }
            let pair = self.pair_of(current);
            current = self.next_of(pair);
            proof {
                assert(self@.ring_step(ring, i));
            }
            if current == head {
                proof {
                    self@.lemma_between_none(v1, v2);
                }
                return None;
            }
            proof {
                i = i + 1;
            }
        }
    }

    /// The edge that joins `v1` and `v2`, if there is one.
    pub fn find_edge(&self, v1: VertexHandle, v2: VertexHandle) -> (r: Option<EdgeHandle>)
        requires
            self.wf(),
        ensures
            r == (match self@.half_edge_between(v1, v2) {
                Some(h) => Some(self@.edge(h)),
                None => None,
            }),
    {
        match self.find_half_edge(v1, v2) {
            Some(h) => Some(self.edge_of(h)),
            None => None,
        }
    }

    /// Adds an edge that carries `data` between `v1` and `v2`, with its two
    /// half-edges, and returns its handle.
    ///
    /// Nothing is added, and the graph is left as it was, when the two
    /// handles are equal, when one of them names no vertex, when an edge
    /// joins the two vertices already, or when the ring of one of them is
    /// closed in by faces all round.
    pub fn new_edge(&mut self, v1: VertexHandle, v2: VertexHandle, data: D::Edge) -> (r: Option<
        EdgeHandle,
    >)
        requires
            old(self).wf(),
            old(self).edge_count() < SLOT_LIMIT,
            old(self).half_edge_count() + 1 < SLOT_LIMIT,
        ensures
            final(self).wf(),
            final(self)@.grows_from(old(self)@),
            final(self)@.keeps_faces(old(self)@),
            r is Some <==> old(self)@.can_join(v1, v2),
            r is None ==> final(self)@ == old(self)@ && final(self).same_data(old(self)),
            r matches Some(e) ==> {
                let h1 = final(self)@.edges[e];
                let h2 = final(self)@.pair(h1);
                &&& old(self)@.edge_fits(v1, v2, e, h1, h2)
                &&& final(self)@ == old(self)@.with_edge(v1, v2, e, h1, h2)
                &&& final(self).edge_data() == old(self).edge_data().insert(e, data)
                &&& final(self).vertex_data() == old(self).vertex_data()
                &&& final(self).face_data() == old(self).face_data()
                &&& final(self).half_edge_data().dom() == old(self).half_edge_data().dom().insert(
                    h1,
                ).insert(h2)
                &&& Self::default_half_edge(final(self).half_edge_data()[h1])
                &&& Self::default_half_edge(final(self).half_edge_data()[h2])
                &&& forall|g: HalfEdgeHandle|
                    old(self)@.has(g) ==> #[trigger] final(self).half_edge_data()[g] == old(
                        self,
                    ).half_edge_data()[g]
                &&& final(self).vertex_count() == old(self).vertex_count()
                &&& final(self).face_count() == old(self).face_count()
                &&& final(self).edge_count() == old(self).edge_count() + 1
                &&& final(self).half_edge_count() == old(self).half_edge_count() + 2
                &&& final(self).vertex_order() == old(self).vertex_order()
                &&& final(self).face_order() == old(self).face_order()
                &&& final(self).edge_order() == old(self).edge_order().push(e)
                &&& final(self).half_edge_order() == old(self).half_edge_order().push(h1).push(h2)
            },
    {
        proof {
            self@.lemma_grows_reflexive();
        }
        if v1 == v2 {
            return None;
        }
        if self.find_edge(v1, v2).is_some() {
            return None;
        }
        if !self.contains_vertex(v1) || !self.contains_vertex(v2) {
            return None;
        }
        let v1_insertion = match self.find_attach_place(v1) {
            Some(place) => place,
            None => {
                return None;
            },
        };
        let v2_insertion = match self.find_attach_place(v2) {
            Some(place) => place,
            None => {
                return None;
            },
        };
        let (e, h1, h2) = self.alloc_edge_pair(v1, v2, data);
        proof {
            let t0 = old(self)@;
            if v1_insertion is Some {
                t0.lemma_attach_site(v1);
            }
            if v2_insertion is Some {
                t0.lemma_attach_site(v2);
            }
            t0.lemma_with_edge_links(v1, v2, e, h1, h2);
        }
        match v1_insertion {
            Some(e1) => {
                self.splice_before(e1, h1, h2);
            },
            None => {
                self.set_vertex_hedge(v1, h1);
            },
        }
        match v2_insertion {
            Some(e1) => {
                self.splice_before(e1, h2, h1);
            },
            None => {
                self.set_vertex_hedge(v2, h2);
            },
        }
        let ghost rings = old(self)@.rings.insert(v1, old(self)@.ring_attached(v1, h1)).insert(
            v2,
            old(self)@.ring_attached(v2, h2),
        );
        self.set_rings(Ghost(rings));
        proof {
            let t0 = old(self)@;
            reveal(Topology::with_edge);
            let t = t0.with_edge(v1, v2, e, h1, h2);
            t0.lemma_vertex(v1);
            t0.lemma_vertex(v2);
            assert(self@.half_edges =~= t.half_edges);
            assert(self@.vertices =~= t.vertices);
            assert(self@.edges =~= t.edges);
            assert(self@ == t);
            t0.lemma_with_edge_wf(v1, v2, e, h1, h2);
            t0.lemma_with_edge_grows(v1, v2, e, h1, h2);
        }
        Some(e)
    }

    /// The free half-edge of the ring of `v` before which a new half-edge
    /// is to be put in: none inside if `v` is isolated, nothing at all if
    /// the ring of `v` has no free half-edge.
    pub(crate) fn find_attach_place(&self, v: VertexHandle) -> (r: Option<Option<HalfEdgeHandle>>)
        requires
            self.wf(),
            self@.has_vertex(v),
        ensures
            r is Some <==> self@.can_attach(v),
            r matches Some(place) ==> place == self@.attach_before(v),
    {
        proof {
            self@.lemma_vertex(v);
            self@.lemma_free_place(self@.rings[v]);
        }
        match self.hedge_of_vertex(v) {
            Some(h) => {
                proof {
                    self@.lemma_ring_from_representative(v);
                }
                match self.find_free_half_edge(h) {
                    Some(free) => Some(Some(free)),
                    None => None,
                }
            },
            None => Some(None),
        }
    }

    /// Stores a new edge from `v1` to `v2` whose two half-edges follow
    /// each other and are tied to nothing else yet.
    pub(crate) fn alloc_edge_pair(&mut self, v1: VertexHandle, v2: VertexHandle, data: D::Edge) -> (r:
        (EdgeHandle, HalfEdgeHandle, HalfEdgeHandle))
        requires
            old(self).stored(),
            old(self).edge_count() < SLOT_LIMIT,
            old(self).half_edge_count() + 1 < SLOT_LIMIT,
        ensures
            final(self).stored(),
            !old(self)@.has_edge(r.0),
            !old(self)@.has(r.1),
            !old(self)@.has(r.2),
            r.1 != r.2,
            !r.1.null_spec(),
            !r.2.null_spec(),
            final(self)@ == (Topology {
                edges: old(self)@.edges.insert(r.0, r.1),
                half_edges: old(self)@.half_edges.insert(
                    r.1,
                    Links { pair: r.2, next: r.2, prev: r.2, vertex: v2, edge: r.0, face: None },
                ).insert(
                    r.2,
                    Links { pair: r.1, next: r.1, prev: r.1, vertex: v1, edge: r.0, face: None },
                ),
                ..old(self)@
            }),
            final(self).edge_data() == old(self).edge_data().insert(r.0, data),
            final(self).vertex_data() == old(self).vertex_data(),
            final(self).face_data() == old(self).face_data(),
            final(self).half_edge_data().dom() == old(self).half_edge_data().dom().insert(
                r.1,
            ).insert(r.2),
            Self::default_half_edge(final(self).half_edge_data()[r.1]),
            Self::default_half_edge(final(self).half_edge_data()[r.2]),
            forall|g: HalfEdgeHandle|
                old(self)@.has(g) ==> #[trigger] final(self).half_edge_data()[g] == old(
                    self,
                ).half_edge_data()[g],
            final(self).vertex_count() == old(self).vertex_count(),
            final(self).face_count() == old(self).face_count(),
            final(self).edge_count() == old(self).edge_count() + 1,
            final(self).half_edge_count() == old(self).half_edge_count() + 2,
            final(self).vertex_order() == old(self).vertex_order(),
            final(self).face_order() == old(self).face_order(),
            final(self).edge_order() == old(self).edge_order().push(r.0),
            final(self).half_edge_order() == old(self).half_edge_order().push(r.1).push(r.2),
    {
        let e = self.alloc_edge(data, HalfEdgeHandle::null());
        let h1 = self.alloc_half_edge(
            HalfEdgeHandle::null(),
            HalfEdgeHandle::null(),
            HalfEdgeHandle::null(),
            v2,
            e,
        );
        let h2 = self.alloc_half_edge(h1, h1, h1, v1, e);
        self.set_edge_hedge(e, h1);
        self.set_pair(h1, h2);
        self.set_next(h1, h2);
        self.set_prev(h1, h2);
        proof {
            old(self).lemma_data_domains();
            assert(self@.edges =~= old(self)@.edges.insert(e, h1));
            assert(self@.half_edges =~= old(self)@.half_edges.insert(
                h1,
                Links { pair: h2, next: h2, prev: h2, vertex: v2, edge: e, face: None },
            ).insert(h2, Links { pair: h1, next: h1, prev: h1, vertex: v1, edge: e, face: None }));
        }
        (e, h1, h2)
    }

    /// Puts `h_out` and `h_in` into the loop just before `e1`: what came
    /// before `e1` is now followed by `h_out`, and `h_in` by `e1`.
    pub(crate) fn splice_before(
        &mut self,
        e1: HalfEdgeHandle,
        h_out: HalfEdgeHandle,
        h_in: HalfEdgeHandle,
    )
        requires
            old(self).stored(),
            old(self)@.has(e1),
            old(self)@.has(old(self)@.prev(e1)),
            old(self)@.has(h_out),
            old(self)@.has(h_in),
        ensures
            final(self).stored(),
            final(self).same_data(old(self)),
            ({
                let t0 = old(self)@;
                let e2 = t0.prev(e1);
                let m1 = t0.half_edges.insert(e2, Links { next: h_out, ..t0.half_edges[e2] });
                let m2 = m1.insert(h_out, Links { prev: e2, ..m1[h_out] });
                let m3 = m2.insert(h_in, Links { next: e1, ..m2[h_in] });
                let m4 = m3.insert(e1, Links { prev: h_in, ..m3[e1] });
                final(self)@ == (Topology { half_edges: m4, ..t0 })
            }),
    {
        let e2 = self.prev_of(e1);
        self.set_next(e2, h_out);
        self.set_prev(h_out, e2);
        self.set_next(h_in, e1);
        self.set_prev(e1, h_in);
    }

    /// The half-edge that leads from `v1` to `v2`: the one that is there,
    /// or else that of a new edge between the two, which carries the
    /// default payload. Nothing is returned, and the graph is left as it
    /// was, where there is no such half-edge and no edge can be added.
    pub fn find_or_create_half_edge(&mut self, v1: VertexHandle, v2: VertexHandle) -> (r: Option<
        HalfEdgeHandle,
    >)
        requires
            old(self).wf(),
            old(self).edge_count() < SLOT_LIMIT,
            old(self).half_edge_count() + 1 < SLOT_LIMIT,
        ensures
            final(self).wf(),
            final(self).data_grows_from(old(self)),
            final(self)@.grows_from(old(self)@),
            final(self)@.keeps_faces(old(self)@),
            final(self)@.vertices.dom() == old(self)@.vertices.dom(),
            final(self).edge_count() <= old(self).edge_count() + 1,
            final(self).half_edge_count() <= old(self).half_edge_count() + 2,
            r is Some <==> old(self)@.half_edge_between(v1, v2) is Some || old(self)@.can_join(
                v1,
                v2,
            ),
            r matches Some(h) ==> final(self)@.joins(h, v1, v2),
            old(self)@.half_edge_between(v1, v2) matches Some(h) ==> r == Some(h) && final(self)@
                == old(self)@ && final(self).same_data(old(self)),
            r is None ==> final(self)@ == old(self)@ && final(self).same_data(old(self)),
            old(self)@.half_edge_between(v1, v2) is None ==> (r matches Some(h) ==> {
                let e = final(self)@.edge(h);
                let h2 = final(self)@.pair(h);
                &&& old(self)@.edge_fits(v1, v2, e, h, h2)
                &&& final(self)@ == old(self)@.with_edge(v1, v2, e, h, h2)
                &&& final(self).edge_count() == old(self).edge_count() + 1
                &&& final(self).half_edge_count() == old(self).half_edge_count() + 2
                &&& final(self).edge_data().dom() == old(self).edge_data().dom().insert(e)
                &&& Self::default_edge(final(self).edge_data()[e])
                &&& Self::default_half_edge(final(self).half_edge_data()[h])
                &&& Self::default_half_edge(final(self).half_edge_data()[h2])
                &&& final(self).half_edge_data().dom() == old(self).half_edge_data().dom().insert(
                    h,
                ).insert(h2)
            }),
    {
        proof {
            self@.lemma_grows_reflexive();
        }
        if let Some(h) = self.find_half_edge(v1, v2) {
            return Some(h);
        }
        let data = <D::Edge as Default>::default();
        match self.new_edge(v1, v2, data) {
            Some(e) => {
                let h = self.hedge_of_edge(e);
                proof {
                    let h2 = self@.pair(h);
                    old(self)@.lemma_with_edge_grows(v1, v2, e, h, h2);
                    old(self).lemma_data_domains();
                    self.lemma_data_domains();
                    old(self)@.lemma_with_edge_links(v1, v2, e, h, h2);
                    assert(self@.edge(h) == e);
                }
                Some(h)
            },
            None => None,
        }
    }

    /// The half-edges that lead along the vertices of `v` and back to the
    /// first, each found or made by `find_or_create_half_edge`; nothing
    /// where one of them can be neither found nor made.
    pub(crate) fn collect_half_edges(&mut self, v: &[VertexHandle]) -> (r: Option<
        Vec<HalfEdgeHandle>,
    >)
        requires
            old(self).wf(),
            old(self).edge_count() + v@.len() <= SLOT_LIMIT,
            old(self).half_edge_count() + 2 * v@.len() <= SLOT_LIMIT,
        ensures
            final(self).wf(),
            final(self).data_grows_from(old(self)),
            final(self)@.edges_added_to(old(self)@),
            r is Some <==> old(self)@.all_linkable(v@),
            r matches Some(hedges) ==> final(self)@.follows(hedges@, v@) && final(self)@ == old(
                self,
            )@.with_sides(v@, hedges@, final(self)@, v@.len()),
            r is None ==> final(self)@ == old(self)@.with_sides(
                v@,
                final(self)@.sides_along(v@),
                final(self)@,
                old(self)@.first_unlinkable(v@) as nat,
            ),
            forall|u: VertexHandle|
                old(self)@.untouched(v@, v@.len() as int, u) ==> final(self)@.rings[u] == old(
                    self,
                )@.rings[u],
    {
        let pairs = circular_pairs(v);
        let n = pairs.len();
        let mut hedges: Vec<HalfEdgeHandle> = Vec::new();
        let mut i: usize = 0;
        proof {
            self@.lemma_edges_added_reflexive();
        }
        while i < n
            invariant
                old(self).wf(),
                self.wf(),
                self.data_grows_from(old(self)),
                self@.edges_added_to(old(self)@),
                self.edge_count() <= old(self).edge_count() + i,
                self.half_edge_count() <= old(self).half_edge_count() + 2 * i,
                old(self).edge_count() + v@.len() <= SLOT_LIMIT,
                old(self).half_edge_count() + 2 * v@.len() <= SLOT_LIMIT,
                n == v@.len(),
                n == pairs@.len(),
                0 <= i <= n,
                hedges@.len() == i,
                forall|j: int|
                    0 <= j < n ==> (#[trigger] pairs@[j]).0 == v@[j] && pairs@[j].1 == v@[cyc_next(
                        j,
                        n as int,
                    )],
                forall|j: int|
                    0 <= j < i ==> self@.joins(
                        #[trigger] hedges@[j],
                        v@[j],
                        v@[cyc_next(j, n as int)],
                    ),
                forall|j: int| 0 <= j < i ==> #[trigger] old(self)@.side_linkable(v@, j),
                forall|u: VertexHandle|
                    old(self)@.untouched(v@, i as int, u) ==> self@.rings[u] == old(self)@.rings[u],
                self@ == old(self)@.with_sides(v@, hedges@, self@, i as nat),
            decreases n - i,
        {
            let ghost mid = self@;
            let ghost mid_graph = *self;
            let pair = pairs[i];
            let found = self.find_or_create_half_edge(pair.0, pair.1);
            proof {
                let a = pair.0;
                let b = pair.1;
                let before = old(self)@;
                before.lemma_linkable_step(mid, a, b);
                assert(before.side_linkable(v@, i as int) == (found is Some));
                if found is Some && mid.half_edge_between(a, b) is None {
                    let h = found->Some_0;
                    let e = self@.edge(h);
                    let h2 = self@.pair(h);
                    mid.lemma_edges_added_step(before, a, b, e, h, h2);
                    mid.lemma_with_edge_ring_lengths(a, b, e, h, h2);
                    if before.half_edge_between(a, b) is Some {
                        let c = before.half_edge_between(a, b)->Some_0;
                        mid.lemma_grows_joins(before, c, a, b);
                    }
                    assert(!before.side_there(v@, i as int));
                }
                assert forall|u: VertexHandle|
                    before.untouched(v@, i as int + 1, u) implies self@.rings[u]
                    == before.rings[u] by {
                    assert(before.untouched(v@, i as int, u)) by {
                        assert forall|j: int| 0 <= j < i implies #[trigger] before.side_there(v@, j)
                            || (u != v@[j] && u != v@[cyc_next(j, v@.len() as int)]) by {
                            assert(before.side_there(v@, j) || (u != v@[j] && u != v@[cyc_next(
                                j,
                                v@.len() as int,
                            )]));
                        }
                    }
                    assert(before.side_there(v@, i as int) || (u != v@[i as int] && u != v@[cyc_next(
                        i as int,
                        v@.len() as int,
                    )]));
                }
                assert forall|j: int| 0 <= j < i implies self@.joins(
                    #[trigger] hedges@[j],
                    v@[j],
                    v@[cyc_next(j, n as int)],
                ) by {
                    self@.lemma_grows_joins(mid, hedges@[j], v@[j], v@[cyc_next(j, n as int)]);
                }
                assert(old(self).edge_data().submap_of(self.edge_data())) by {
                    assert forall|k: EdgeHandle| #[trigger]
                        old(self).edge_data().dom().contains(k) implies self.edge_data().dom().contains(
                        k,
                    ) && self.edge_data()[k] == old(self).edge_data()[k] by {
                        assert(mid_graph.edge_data().dom().contains(k));
                    }
                }
                assert(old(self).half_edge_data().submap_of(self.half_edge_data())) by {
                    assert forall|k: HalfEdgeHandle| #[trigger]
                        old(self).half_edge_data().dom().contains(k) implies self.half_edge_data().dom().contains(
                        k,
                    ) && self.half_edge_data()[k] == old(self).half_edge_data()[k] by {
                        assert(mid_graph.half_edge_data().dom().contains(k));
                    }
                }
            }
            let ghost listed = hedges@;
            match found {
                Some(h) => {
                    hedges.push(h);
                },
                None => {
                    proof {
                        let before = old(self)@;
                        before.lemma_first_unlinkable(v@, i as int);
                        before.lemma_sides_so_far(self@, v@, hedges@, i as int);
                    }
                    return None;
                },
            }
            proof {
                let before = old(self)@;
                assert forall|j: int| 0 <= j < i implies #[trigger] listed[j] == hedges@[j]
                    && mid.edge(listed[j]) == self@.edge(listed[j]) && mid.pair(listed[j])
                    == self@.pair(listed[j]) by {
                    assert(mid.has(listed[j]));
                }
                before.lemma_with_sides_agrees(v@, listed, mid, hedges@, self@, i as nat);
                assert(hedges@[i as int] == found->Some_0);
            }
            i = i + 1;
        }
        Some(hedges)
    }

    /// Whether every half-edge of `hedges` lies on no face.
    pub(crate) fn all_free(&self, hedges: &Vec<HalfEdgeHandle>) -> (r: bool)
        requires
            self.wf(),
            forall|j: int| 0 <= j < hedges@.len() ==> self@.has(#[trigger] hedges@[j]),
        ensures
            r == forall|j: int| 0 <= j < hedges@.len() ==> self@.is_free(#[trigger] hedges@[j]),
    {
        let mut i: usize = 0;
        while i < hedges.len()
            invariant
                self.wf(),
                0 <= i <= hedges@.len(),
                forall|j: int| 0 <= j < hedges@.len() ==> self@.has(#[trigger] hedges@[j]),
                forall|j: int| 0 <= j < i ==> self@.is_free(#[trigger] hedges@[j]),
            decreases hedges@.len() - i,
        {
            if self.face_of(hedges[i]).is_some() {
                return false;
            }
            i = i + 1;
        }
        true
    }

    /// Makes the half-edge behind place `i` of the chain `hedges` the
    /// `next` of the one at place `i`, if that can be done.
    fn make_corner(
        &mut self,
        hedges: &Vec<HalfEdgeHandle>,
        i: usize,
        Ghost(start): Ghost<Topology>,
    ) -> (r: bool)
        requires
            old(self).wf(),
            start.wf(),
            old(self)@.corner_progress(start, hedges@, i as int),
            i < hedges@.len(),
        ensures
            final(self).wf(),
            final(self).same_data(old(self)),
            r == start.corner_in_turn(hedges@, i as int),
            !r ==> final(self)@ == old(self)@,
            r ==> final(self)@.corner_progress(start, hedges@, i as int + 1),
    {
        let n = hedges.len();
        let following = if i + 1 == n {
            0
        } else {
            i + 1
        };
        proof {
            assert(self@.has(hedges@[i as int]));
            assert(self@.has(hedges@[cyc_next(i as int, n as int)]));
        }
        let done = self.make_hedge_adjacent(hedges[i], hedges[following]);
        proof {
            if done {
                old(self)@.lemma_corner_progress(start, hedges@, i as int);
            }
        }
        done
    }

    /// Makes each half-edge of the chain `hedges` the `next` of the one
    /// before it, by `make_hedge_adjacent`; stops, with `false`, at the
    /// first place where that cannot be done. What was done before stays
    /// done.
    ///
    /// Where no two half-edges of the chain point to the same vertex,
    /// what is done at one corner leaves the others as they were: all
    /// corners can be dealt with if each of them can, and the chain is a
    /// closed loop in the end.
    pub(crate) fn make_all_adjacent(&mut self, hedges: &Vec<HalfEdgeHandle>) -> (r: bool)
        requires
            old(self).wf(),
            old(self)@.chain(hedges@),
        ensures
            final(self).wf(),
            final(self).same_data(old(self)),
            final(self)@.grows_from(old(self)@),
            final(self)@.keeps_faces(old(self)@),
            final(self)@.half_edges.dom() == old(self)@.half_edges.dom(),
            final(self)@.vertices == old(self)@.vertices,
            final(self)@.edges == old(self)@.edges,
            final(self)@.chain(hedges@),
            old(self)@.distinct_targets(hedges@) ==> (r <==> old(self)@.all_corners(hedges@)),
            old(self)@.distinct_targets(hedges@) && r ==> final(self)@.closed_loop(hedges@),
            r <==> old(self)@.corners_in_turn(hedges@, hedges@.len() as int),
            r ==> final(self)@ == old(self)@.with_corners(hedges@, hedges@.len()),
            !r ==> final(self)@ == old(self)@.with_corners(
                hedges@,
                old(self)@.first_stuck(hedges@) as nat,
            ),
    {
        let n = hedges.len();
        let mut i: usize = 0;
        let ghost start = self@;
        proof {
            start.lemma_corner_progress_start(hedges@);
        }
        while i < n
            invariant
                self.wf(),
                start.wf(),
                start == old(self)@,
                self.same_data(old(self)),
                self@.corner_progress(start, hedges@, i as int),
                n == hedges@.len(),
                0 <= i <= n,
            decreases n - i,
        {
            let done = self.make_corner(hedges, i, Ghost(start));
            if !done {
                proof {
                    start.lemma_corner_progress_end(self@, hedges@, i as int);
                    start.lemma_first_stuck(hedges@, i as int);
                }
                return false;
            }
            i = i + 1;
        }
        proof {
            start.lemma_corner_progress_end(self@, hedges@, n as int);
        }
        true
    }

    /// Whether `hedges` is a closed loop.
    pub(crate) fn is_closed_loop(&self, hedges: &Vec<HalfEdgeHandle>) -> (r: bool)
        requires
            self.wf(),
            forall|j: int| 0 <= j < hedges@.len() ==> self@.has(#[trigger] hedges@[j]),
        ensures
            r == self@.closed_loop(hedges@),
    {
        let n = hedges.len();
        let mut i: usize = 0;
        while i < n
            invariant
                self.wf(),
                n == hedges@.len(),
                0 <= i <= n,
                forall|j: int| 0 <= j < hedges@.len() ==> self@.has(#[trigger] hedges@[j]),
                forall|j: int| 0 <= j < i ==> #[trigger] self@.loop_step(hedges@, j),
                forall|j: int| 0 < j < i ==> #[trigger] hedges@[j] != hedges@[0],
            decreases n - i,
        {
            let following = if i + 1 == n {
                0
            } else {
                i + 1
            };
            if self.next_of(hedges[i]) != hedges[following] {
                proof {
                    assert(!self@.loop_step(hedges@, i as int));
                }
                return false;
            }
            if i > 0 && hedges[i] == hedges[0] {
                return false;
            }
            i = i + 1;
        }
        true
    }

    /// Closes the loop `hedges` into a new face that carries `data`.
    pub(crate) fn stamp_face(&mut self, hedges: &Vec<HalfEdgeHandle>, data: D::Face) -> (f:
        FaceHandle)
        requires
            old(self).wf(),
            old(self).face_count() < SLOT_LIMIT,
            hedges@.len() >= 2,
            forall|j: int|
                0 <= j < hedges@.len() ==> old(self)@.has(#[trigger] hedges@[j]) && old(
                    self,
                )@.is_free(hedges@[j]),
            old(self)@.closed_loop(hedges@),
        ensures
            final(self).wf(),
            old(self)@.face_fits(f, hedges@),
            final(self)@ == old(self)@.with_face(f, hedges@),
            final(self).face_data() == old(self).face_data().insert(f, data),
            final(self).vertex_data() == old(self).vertex_data(),
            final(self).edge_data() == old(self).edge_data(),
            final(self).half_edge_data() == old(self).half_edge_data(),
            final(self).vertex_count() == old(self).vertex_count(),
            final(self).edge_count() == old(self).edge_count(),
            final(self).half_edge_count() == old(self).half_edge_count(),
            final(self).face_count() == old(self).face_count() + 1,
            final(self).vertex_order() == old(self).vertex_order(),
            final(self).edge_order() == old(self).edge_order(),
            final(self).half_edge_order() == old(self).half_edge_order(),
            final(self).face_order() == old(self).face_order().push(f),
    {
        let ghost t0 = self@;
        let ghost l = hedges@;
        let f = self.alloc_face(data, hedges[0]);
        let ghost after_alloc = *self;
        let n = hedges.len();
        let mut i: usize = 0;
        while i < n
            invariant
                self.stored(),
                self.same_data(&after_alloc),
                !f.null_spec(),
                l == hedges@,
                n == l.len(),
                0 <= i <= n,
                forall|j: int| 0 <= j < l.len() ==> t0.has(#[trigger] l[j]),
                self@.vertices == t0.vertices,
                self@.edges == t0.edges,
                self@.rings == t0.rings,
                self@.loops == t0.loops,
                self@.faces == t0.faces.insert(f, l[0]),
                self@.half_edges.dom() == t0.half_edges.dom(),
                forall|h: HalfEdgeHandle| #[trigger]
                    t0.has(h) ==> self@.half_edges[h] == (Links {
                        face: if l.take(i as int).contains(h) {
                            Some(f)
                        } else {
                            t0.face(h)
                        },
                        ..t0.half_edges[h]
                    }),
            decreases n - i,
        {
            let ghost before = self@;
            proof {
                assert(t0.has(l[i as int]));
            }
            self.set_face(hedges[i], f);
            proof {
                let taken = l.take(i as int);
                let more = l.take(i as int + 1);
                assert(more[i as int] == l[i as int]);
                assert forall|h: HalfEdgeHandle| more.contains(h) <==> taken.contains(h) || h
                    == l[i as int] by {
                    if more.contains(h) {
                        let j = choose|j: int| 0 <= j < more.len() && more[j] == h;
                        if j < i {
                            assert(taken[j] == h);
                        }
                    }
                    if taken.contains(h) {
                        let j = choose|j: int| 0 <= j < taken.len() && taken[j] == h;
                        assert(more[j] == h);
                    }
                }
                assert(self@.half_edges.dom() =~= t0.half_edges.dom());
            }
            i = i + 1;
        }
        let ghost loops = t0.loops.insert(f, l);
        self.set_loops(Ghost(loops));
        proof {
            assert(l.take(n as int) =~= l);
            assert(t0.face_fits(f, l));
            reveal(Topology::with_face);
            let t = t0.with_face(f, l);
            assert(self@.half_edges =~= t.half_edges);
            assert(self@ == t);
            t0.lemma_with_face_wf(f, l);
        }
        f
    }

    /// Adds a face that carries `data` and has the vertices `v`, in their
    /// order, on its boundary, and returns its handle.
    ///
    /// The half-edge from each vertex to the next, and from the last to
    /// the first, is found or made as by `find_or_create_half_edge`. Then
    /// each of them is made the `next` of the one before it, as by
    /// `make_hedge_adjacent`, and the loop is given the new face.
    ///
    /// No face is added where `v` holds fewer than two vertices, where one
    /// of the half-edges can be neither found nor made or lies on a face
    /// already, where two of them cannot be made to follow each other, or
    /// where the half-edges do not form one closed loop in the end, as can
    /// happen when `v` names a vertex twice. Edges that were made and
    /// rings that were reordered before that was found stay as they are:
    /// the graph is well formed but not as it was.
    pub fn new_face(&mut self, v: &[VertexHandle], data: D::Face) -> (r: Option<FaceHandle>)
        requires
            old(self).wf(),
            old(self).face_count() < SLOT_LIMIT,
            old(self).edge_count() + v@.len() <= SLOT_LIMIT,
            old(self).half_edge_count() + 2 * v@.len() <= SLOT_LIMIT,
        ensures
            final(self).wf(),
            final(self)@.grows_from(old(self)@),
            final(self)@.vertices.dom() == old(self)@.vertices.dom(),
            final(self).vertex_data() == old(self).vertex_data(),
            old(self).edge_data().submap_of(final(self).edge_data()),
            old(self).half_edge_data().submap_of(final(self).half_edge_data()),
            forall|e: EdgeHandle|
                final(self).edge_data().dom().contains(e) && !old(self).edge_data().dom().contains(
                    e,
                ) ==> Self::default_edge(#[trigger] final(self).edge_data()[e]),
            forall|h: HalfEdgeHandle|
                final(self).half_edge_data().dom().contains(h) && !old(
                    self,
                ).half_edge_data().dom().contains(h) ==> Self::default_half_edge(
                    #[trigger] final(self).half_edge_data()[h],
                ),
            final(self).vertex_count() == old(self).vertex_count(),
            final(self).vertex_order() == old(self).vertex_order(),
            old(self).edge_order().is_prefix_of(final(self).edge_order()),
            old(self).half_edge_order().is_prefix_of(final(self).half_edge_order()),
            v@.len() < 2 ==> r is None && final(self)@ == old(self)@ && final(self).same_data(
                old(self),
            ),
            r is Some <==> old(self)@.face_ready(final(self)@, v@),
            v@.no_duplicates() && v@.len() >= 3 ==> (r is Some <==> old(self)@.polygon_ready(v@)),
            v@.len() == 2 && v@[0] != v@[1] ==> (r is Some <==> old(self)@.digon_ready(
                v@[0],
                v@[1],
            )),
            r is None ==> final(self)@ == old(self)@.attempted(final(self)@, v@),
            r is None ==> final(self)@.keeps_faces(old(self)@),
            r is None ==> final(self).face_data() == old(self).face_data(),
            r is None ==> final(self).face_count() == old(self).face_count(),
            r is None ==> final(self).face_order() == old(self).face_order(),
            r matches Some(f) ==> {
                let l = final(self)@.loops[f];
                &&& final(self)@ == old(self)@.with_sides(v@, l, final(self)@, v@.len()).with_corners(
                    l,
                    l.len(),
                ).with_face(f, l)
                &&& !old(self)@.has_face(f)
                &&& final(self)@.faces == old(self)@.faces.insert(f, l[0])
                &&& final(self)@.follows(l, v@)
                &&& forall|h: HalfEdgeHandle| #[trigger]
                    old(self)@.has(h) ==> final(self)@.face(h) == (if l.contains(h) {
                        Some(f)
                    } else {
                        old(self)@.face(h)
                    })
                &&& final(self).face_data() == old(self).face_data().insert(f, data)
                &&& final(self).face_count() == old(self).face_count() + 1
                &&& final(self).face_order() == old(self).face_order().push(f)
            },
    {
        proof {
            self@.lemma_grows_reflexive();
        }
        if v.len() < 2 {
            return None;
        }
        proof {
            if v@.len() == 2 && v@[0] != v@[1] && self@.digon_ready(v@[0], v@[1]) {
                self@.lemma_digon_needs(v@);
            }
            if v@.len() == 2 && v@[0] != v@[1] {
                assert(v@.no_duplicates());
            }
        }
        let hedges = match self.collect_half_edges(v) {
            Some(hedges) => hedges,
            None => {
                return None;
            },
        };
        let ghost collected = self@;
        proof {
            assert forall|j: int| 0 <= j < hedges@.len() implies self@.has(
                #[trigger] hedges@[j],
            ) by {}
        }
        let free = self.all_free(&hedges);
        proof {
            old(self)@.lemma_polygon_free(collected, v@, hedges@);
        }
        if !free {
            proof {
                collected.lemma_grows_reflexive();
                old(self)@.lemma_sides_named(collected, collected, v@, hedges@);
            }
            return None;
        }
        proof {
            old(self)@.lemma_polygon_verdict(collected, v@, hedges@);
            if v@.len() == 2 && v@[0] != v@[1] {
                old(self)@.lemma_digon_corners(collected, v@, hedges@);
            }
        }
        let adjacent = self.make_all_adjacent(&hedges);
        let ghost ordered = self@;
        if !adjacent {
            proof {
                self@.lemma_grows_transitive(collected, old(self)@);
                self@.lemma_keeps_faces_transitive(collected, old(self)@);
                old(self)@.lemma_sides_named(collected, self@, v@, hedges@);
            }
            return None;
        }
        if !self.is_closed_loop(&hedges) {
            proof {
                self@.lemma_grows_transitive(collected, old(self)@);
                self@.lemma_keeps_faces_transitive(collected, old(self)@);
                old(self)@.lemma_sides_named(collected, self@, v@, hedges@);
            }
            return None;
        }
        let f = self.stamp_face(&hedges, data);
        proof {
            old(self)@.lemma_face_closed(collected, ordered, self@, v@, hedges@, f);
        }
        Some(f)
    }
}

} // verus!
