//! The invariant checker: walks every half-edge of a graph and tests the
//! half-edge invariants on it.

use crate::data::Data;
use crate::graph::HalfEdgeGraph;
use crate::handle::{FaceHandle, HalfEdgeHandle};
use crate::topology::Topology;
use vstd::prelude::*;

verus! {

impl Topology {
    /// The invariants that the checker tests on one half-edge.
    pub open spec fn checks(self, h: HalfEdgeHandle) -> bool {
        &&& self.pair(self.pair(h)) == h
        &&& self.prev(self.next(h)) == h
        &&& self.face(self.next(h)) == self.face(h)
        &&& self.edge(self.pair(h)) == self.edge(h)
        &&& self.target(self.pair(h)) != self.target(h)
        &&& self.target(self.pair(self.next(h))) == self.target(h)
    }

    /// Whether every half-edge of the graph passes the checks.
    pub open spec fn invariants_hold(self) -> bool {
        forall|h: HalfEdgeHandle| #[trigger] self.has(h) ==> self.checks(h)
    }

    /// In a well-formed graph every half-edge passes the checks.
    pub proof fn lemma_invariants_hold(self)
        requires
            self.wf(),
        ensures
            self.invariants_hold(),
    {
        assert forall|h: HalfEdgeHandle| #[trigger] self.has(h) implies self.checks(h) by {
            self.lemma_half_edge(h);
        }
    }
}

/// Whether two optional face handles name the same face, or both none.
fn same_face(a: Option<FaceHandle>, b: Option<FaceHandle>) -> (r: bool)
    ensures
        r == (a == b),
{
    match (a, b) {
        (Some(x), Some(y)) => x == y,
        (None, None) => true,
        _ => false,
    }
}

impl<D: Data> HalfEdgeGraph<D> {
    /// Tests the half-edge invariants on every half-edge of the graph and
    /// says whether all of them hold. The graph is only read; on a valid
    /// graph the answer is always yes.
    pub fn verify_invariants(&self) -> (ok: bool)
        requires
            self.wf(),
        ensures
            ok == self@.invariants_hold(),
            ok,
    {
        let handles = self.half_edge_handles();
        let mut ok = true;
        let mut i: usize = 0;
        proof {
            self.lemma_half_edge_order();
            self@.lemma_invariants_hold();
        }
        while i < handles.len()
            invariant
                self.wf(),
                handles@ == self.half_edge_order(),
                forall|x: HalfEdgeHandle| self@.has(x) <==> self.half_edge_order().contains(x),
                0 <= i <= handles@.len(),
                ok == forall|j: int| 0 <= j < i ==> self@.checks(#[trigger] handles@[j]),
            decreases handles@.len() - i,
        {
            let h = handles[i];
            proof {
                assert(self.half_edge_order().contains(handles@[i as int]));
                self@.lemma_half_edge(h);
                self@.lemma_half_edge(self@.next(h));
            }
            let pair = self.pair_of(h);
            let next = self.next_of(h);
            let passes = self.pair_of(pair) == h && self.prev_of(next) == h && same_face(
                self.face_of(next),
                self.face_of(h),
            ) && self.edge_of(pair) == self.edge_of(h) && self.target_of(pair) != self.target_of(h)
                && self.target_of(self.pair_of(next)) == self.target_of(h);
            if !passes {
                ok = false;
            }
            i = i + 1;
        }
        proof {
            self@.lemma_invariants_hold();
            if !ok {
                let j = choose|j: int| 0 <= j < i && !self@.checks(#[trigger] handles@[j]);
                assert(self.half_edge_order().contains(handles@[j]));
                assert(self@.has(handles@[j]));
            }
        }
        ok
    }
}

} // verus!
