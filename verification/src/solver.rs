//! The rotation solver: finds free places in the ring of a vertex, and
//! reorders a ring so that two half-edges follow each other.

use crate::data::Data;
use crate::graph::HalfEdgeGraph;
use crate::handle::HalfEdgeHandle;
use crate::topology::{place_of, Topology};
use vstd::prelude::*;

verus! {

impl<D: Data> HalfEdgeGraph<D> {
    /// The first half-edge on no face that a rotation about the origin of
    /// `start` meets, beginning with `start` itself; none if the rotation
    /// comes back to `start` without meeting one.
    pub fn find_free_half_edge(&self, start: HalfEdgeHandle) -> (r: Option<HalfEdgeHandle>)
        requires
            self.wf(),
            self@.has(start),
        ensures
            r == self@.free_from(start),
    {
        let ghost ring = self@.ring_from(start);
        let ghost v = self@.origin(start);
        let ghost mut i: int = 0;
        let mut current = start;
        proof {
            self@.lemma_ring_from(start);
        }
        loop
            invariant
                self.wf(),
                self@.ring_cycle(v, ring),
                ring == self@.ring_from(start),
                0 <= i < ring.len(),
                current == ring[i],
                start == ring[0],
                forall|j: int| 0 <= j < i ==> !self@.is_free(#[trigger] ring[j]),
            decreases ring.len() - i,
        {
            proof {
                assert(self@.has(ring[i]));
                self@.lemma_half_edge(current);
            }
            if self.face_of(current).is_none() {
                proof {
                    self@.lemma_free_place_some(ring, i);
                }
                return Some(current);
            }
            let pair = self.pair_of(current);
            current = self.next_of(pair);
            proof {
                assert(self@.ring_step(ring, i));
            }
            if current == start {
                proof {
                    self@.lemma_free_place_none(ring);
                }
                return None;
            }
            proof {
                i = i + 1;
            }
        }
    }

    /// The first half-edge on no face among those that point to the common
    /// target of `after` and `before` and that a rotation meets from
    /// `after` on; none if the rotation reaches `before` first.
    pub fn find_free_half_edge_between(&self, after: HalfEdgeHandle, before: HalfEdgeHandle) -> (r:
        Option<HalfEdgeHandle>)
        requires
            self.wf(),
            self@.has(after),
            self@.has(before),
            self@.target(after) == self@.target(before),
        ensures
            r == self@.free_between(after, before),
    {
        let ghost ring = self@.ring_from(self@.pair(after));
        let ghost v = self@.target(after);
        let ghost b = place_of(ring, self@.pair(before));
        let ghost inc = self@.incoming_before(after, before);
        let ghost mut i: int = 0;
        let mut current = after;
        proof {
            self@.lemma_half_edge(after);
            self@.lemma_half_edge(before);
            self@.lemma_half_edge(self@.pair(after));
            self@.lemma_half_edge(self@.pair(before));
            self@.lemma_ring_from(self@.pair(after));
            assert(ring.contains(self@.pair(before)));
        }
        loop
            invariant
                self.wf(),
                self@.has(before),
                self@.ring_cycle(v, ring),
                inc == self@.incoming_before(after, before),
                inc.len() == b,
                forall|j: int| 0 <= j < b ==> #[trigger] inc[j] == self@.pair(ring[j]),
                0 <= i <= b < ring.len(),
                ring[b] == self@.pair(before),
                current == self@.pair(ring[i]),
                forall|j: int| 0 <= j < i ==> !self@.is_free(#[trigger] inc[j]),
            decreases b - i,
        {
            proof {
                assert(self@.has(ring[i]));
                self@.lemma_half_edge(ring[i]);
                self@.lemma_half_edge(current);
                self@.lemma_half_edge(before);
                assert(self@.has(ring[b]));
                self@.lemma_half_edge(ring[b]);
            }
            if current == before {
                proof {
                    assert(ring[i] == ring[b]);
                    self@.lemma_free_place_none(inc);
                }
                return None;
            }
            if self.face_of(current).is_none() {
                proof {
                    assert(inc[i] == current);
                    self@.lemma_free_place_some(inc, i);
                }
                return Some(current);
            }
            let next = self.next_of(current);
            current = self.pair_of(next);
            proof {
                assert(self@.ring_step(ring, i));
                assert(inc[i] == self@.pair(ring[i]));
                i = i + 1;
            }
        }
    }

    /// Makes `ho` the `next` of `hi`, where `hi` points to the vertex that
    /// `ho` leaves and both lie on no face. Nothing is done if it is so
    /// already. Else the half-edges that lie between the two in the ring
    /// are moved behind a free half-edge of the ring; where the ring has
    /// none between `pair(ho)` and `hi`, the graph is left as it was and
    /// the result is `false`.
    pub fn make_hedge_adjacent(&mut self, hi: HalfEdgeHandle, ho: HalfEdgeHandle) -> (r: bool)
        requires
            old(self).wf(),
            old(self)@.adjoinable(hi, ho),
        ensures
            final(self).wf(),
            final(self).same_data(old(self)),
            r == old(self)@.can_adjoin(hi, ho),
            !r ==> final(self)@ == old(self)@,
            r ==> final(self)@ == old(self)@.adjacent_made(hi, ho),
            r ==> final(self)@.next(hi) == ho,
    {
        proof {
            self@.lemma_half_edge(hi);
            self@.lemma_half_edge(ho);
        }
        let out_pair = self.pair_of(ho);
        if self.next_of(hi) == ho {
            return true;
        }
        let in_next = self.next_of(hi);
        let out_prev = self.prev_of(ho);
        let free_in = match self.find_free_half_edge_between(out_pair, hi) {
            Some(free_in) => free_in,
            None => {
                return false;
            },
        };
        proof {
            self@.lemma_adjoin_site(hi, ho);
            self@.lemma_adjoined_links(hi, ho);
            self@.lemma_half_edge(free_in);
        }
        let free_in_next = self.next_of(free_in);

        self.set_next(hi, ho);
        self.set_prev(ho, hi);

        self.set_next(free_in, in_next);
        self.set_prev(in_next, free_in);

        self.set_next(out_prev, free_in_next);
        self.set_prev(free_in_next, out_prev);

        let ghost rings = old(self)@.adjoined(hi, ho).rings;
        self.set_rings(Ghost(rings));
        proof {
            reveal(Topology::adjoined);
            let t = old(self)@.adjoined(hi, ho);
            assert(self@.half_edges =~= t.half_edges);
            assert(self@ == t);
            old(self)@.lemma_adjoined_wf(hi, ho);
        }
        true
    }
}

} // verus!
