//! The traversal engine: walks a closed path of half-edges once round,
//! from a head back to the head, and hands out the half-edges that a
//! filter keeps, one at a time.

use crate::data::Data;
use crate::graph::HalfEdgeGraph;
use crate::handle::HalfEdgeHandle;
use crate::topology::{cyc_next, Topology};
use vstd::prelude::*;

verus! {

/// How a walk passes from one half-edge to the following one.
#[derive(Clone, Copy)]
pub enum Step {
    /// To the `next` of the pair: round the vertex that the half-edge
    /// leaves.
    PairNext,
    /// To the pair of the `next`: round the vertex that the half-edge
    /// points to.
    NextPair,
    /// To the `next`: along the loop.
    Next,
    /// To the pair: between the two sides of an edge.
    Pair,
}

/// Which half-edges a walk hands out.
#[derive(Clone, Copy)]
pub enum Keep {
    /// All of them.
    All,
    /// Those that lie on a face.
    Faced,
    /// Those whose pair lies on a face.
    PairFaced,
}

impl Topology {
    /// The half-edge that follows `h` in a walk that steps by `step`.
    pub open spec fn stepped(self, step: Step, h: HalfEdgeHandle) -> HalfEdgeHandle {
        match step {
            Step::PairNext => self.next(self.pair(h)),
            Step::NextPair => self.pair(self.next(h)),
            Step::Next => self.next(h),
            Step::Pair => self.pair(h),
        }
    }

    /// Whether a walk that keeps by `keep` hands out `h`.
    pub open spec fn kept(self, keep: Keep, h: HalfEdgeHandle) -> bool {
        match keep {
            Keep::All => true,
            Keep::Faced => self.face(h) is Some,
            Keep::PairFaced => self.face(self.pair(h)) is Some,
        }
    }

    /// Whether the step from place `i` of `path` leads to the next place.
    pub open spec fn path_step(self, step: Step, path: Seq<HalfEdgeHandle>, i: int) -> bool {
        self.stepped(step, path[i]) == path[cyc_next(i, path.len() as int)]
    }

    /// Whether `path` is a closed path for walks that step by `step`: it
    /// holds half-edges of the graph, none twice, and each step leads from
    /// one to the next and from the last to the first.
    pub open spec fn is_path(self, step: Step, path: Seq<HalfEdgeHandle>) -> bool {
        &&& path.len() > 0
        &&& path.no_duplicates()
        &&& forall|i: int| 0 <= i < path.len() ==> self.has(#[trigger] path[i])
        &&& forall|i: int| 0 <= i < path.len() ==> #[trigger] self.path_step(step, path, i)
    }

    /// The half-edges of `s` that a walk which keeps by `keep` hands out,
    /// in their order.
    pub open spec fn filtered(self, keep: Keep, s: Seq<HalfEdgeHandle>) -> Seq<HalfEdgeHandle>
        decreases s.len(),
    {
        if s.len() == 0 {
            Seq::empty()
        } else if self.kept(keep, s[0]) {
            seq![s[0]] + self.filtered(keep, s.skip(1))
        } else {
            self.filtered(keep, s.skip(1))
        }
    }

    /// What is handed out from place `i` on is what stands at place `i`,
    /// if it is kept, and then what is handed out from the next place on.
    pub proof fn lemma_filtered_skip(self, keep: Keep, s: Seq<HalfEdgeHandle>, i: int)
        requires
            0 <= i < s.len(),
        ensures
            self.filtered(keep, s.skip(i)) == (if self.kept(keep, s[i]) {
                seq![s[i]] + self.filtered(keep, s.skip(i + 1))
            } else {
                self.filtered(keep, s.skip(i + 1))
            }),
    {
        assert(s.skip(i)[0] == s[i]);
        assert(s.skip(i).skip(1) =~= s.skip(i + 1));
    }

    /// Where everything is kept, everything is handed out.
    pub proof fn lemma_filtered_all(self, s: Seq<HalfEdgeHandle>)
        ensures
            self.filtered(Keep::All, s) == s,
        decreases s.len(),
    {
        if s.len() > 0 {
            self.lemma_filtered_all(s.skip(1));
            assert(seq![s[0]] + s.skip(1) =~= s);
        }
    }

    /// What is handed out stood in the sequence and is kept.
    pub proof fn lemma_filtered_kept(self, keep: Keep, s: Seq<HalfEdgeHandle>)
        ensures
            self.filtered(keep, s).len() <= s.len(),
            forall|j: int|
                0 <= j < self.filtered(keep, s).len() ==> s.contains(
                    #[trigger] self.filtered(keep, s)[j],
                ) && self.kept(keep, self.filtered(keep, s)[j]),
        decreases s.len(),
    {
        if s.len() > 0 {
            self.lemma_filtered_kept(keep, s.skip(1));
            let rest = self.filtered(keep, s.skip(1));
            let all = self.filtered(keep, s);
            assert forall|j: int| 0 <= j < all.len() implies s.contains(#[trigger] all[j])
                && self.kept(keep, all[j]) by {
                if self.kept(keep, s[0]) {
                    if j == 0 {
                        assert(all[0] == s[0]);
                    } else {
                        assert(all[j] == rest[j - 1]);
                        let k = choose|k: int| 0 <= k < s.skip(1).len() && s.skip(1)[k] == rest[j - 1];
                        assert(s[k + 1] == rest[j - 1]);
                    }
                } else {
                    assert(all[j] == rest[j]);
                    let k = choose|k: int| 0 <= k < s.skip(1).len() && s.skip(1)[k] == rest[j];
                    assert(s[k + 1] == rest[j]);
                }
            }
        }
    }
}

/// A walk in progress.
pub struct Walk<'g, D: Data> {
    graph: &'g HalfEdgeGraph<D>,
    head: HalfEdgeHandle,
    current: Option<HalfEdgeHandle>,
    step: Step,
    keep: Keep,
    path: Ghost<Seq<HalfEdgeHandle>>,
    place: Ghost<int>,
}

impl<'g, D: Data> Walk<'g, D> {
    /// The graph that is walked.
    pub closed spec fn graph(&self) -> HalfEdgeGraph<D> {
        *self.graph
    }

    /// The half-edges that the walk has yet to hand out, in their order.
    pub closed spec fn remaining(&self) -> Seq<HalfEdgeHandle> {
        self.graph@.filtered(self.keep, self.path@.skip(self.place@))
    }

    /// Whether the walk stands on a place of a closed path that begins at
    /// its head.
    closed spec fn on_path(&self) -> bool {
        &&& self.graph.wf()
        &&& self.graph@.is_path(self.step, self.path@)
        &&& self.path@[0] == self.head
        &&& 0 <= self.place@ < self.path@.len()
        &&& self.current == Some(self.path@[self.place@])
    }

    /// The walk is valid: it has come to its end, or it stands on a
    /// half-edge of its path that is to be handed out.
    pub closed spec fn wf(&self) -> bool {
        &&& self.graph.wf()
        &&& match self.current {
            Some(c) => self.on_path() && self.graph@.kept(self.keep, c),
            None => self.place@ == self.path@.len(),
        }
    }

    /// A walk over `path`, which begins at `init`; a walk over nothing
    /// where `init` is none.
    pub(crate) fn start(
        graph: &'g HalfEdgeGraph<D>,
        init: Option<HalfEdgeHandle>,
        step: Step,
        keep: Keep,
        Ghost(path): Ghost<Seq<HalfEdgeHandle>>,
    ) -> (w: Self)
        requires
            graph.wf(),
            init matches Some(h) ==> graph@.is_path(step, path) && path[0] == h,
        ensures
            w.wf(),
            w.graph() == *graph,
            w.remaining() == (match init {
                Some(_) => graph@.filtered(keep, path),
                None => Seq::empty(),
            }),
    {
        match init {
            Some(h) => {
                let mut walk = Walk {
                    graph,
                    head: h,
                    current: Some(h),
                    step,
                    keep,
                    path: Ghost(path),
                    place: Ghost(0),
                };
                proof {
                    assert(path.skip(0) =~= path);
                    graph@.lemma_filtered_skip(keep, path, 0);
                }
                if !walk.is_kept(h) {
                    walk.advance();
                }
                walk
            },
            None => {
                let walk = Walk {
                    graph,
                    head: HalfEdgeHandle::null(),
                    current: None,
                    step,
                    keep,
                    path: Ghost(Seq::empty()),
                    place: Ghost(0),
                };
                proof {
                    assert(walk.path@.skip(0) =~= Seq::empty());
                }
                walk
            },
        }
    }

    fn is_kept(&self, h: HalfEdgeHandle) -> (r: bool)
        requires
            self.graph.wf(),
            self.graph@.has(h),
        ensures
            r == self.graph@.kept(self.keep, h),
    {
        proof {
            self.graph@.lemma_half_edge(h);
        }
        match self.keep {
            Keep::All => true,
            Keep::Faced => self.graph.face_of(h).is_some(),
            Keep::PairFaced => self.graph.face_of(self.graph.pair_of(h)).is_some(),
        }
    }

    fn step_from(&self, h: HalfEdgeHandle) -> (r: HalfEdgeHandle)
        requires
            self.graph.wf(),
            self.graph@.has(h),
        ensures
            r == self.graph@.stepped(self.step, h),
    {
        proof {
            self.graph@.lemma_half_edge(h);
        }
        match self.step {
            Step::PairNext => self.graph.next_of(self.graph.pair_of(h)),
            Step::NextPair => self.graph.pair_of(self.graph.next_of(h)),
            Step::Next => self.graph.next_of(h),
            Step::Pair => self.graph.pair_of(h),
        }
    }

    /// Steps on from the current half-edge until one is reached that is to
    /// be handed out, or the head is reached again, which ends the walk.
    fn advance(&mut self)
        requires
            old(self).on_path(),
        ensures
            final(self).wf(),
            final(self).graph() == old(self).graph(),
            final(self).remaining() == old(self).graph@.filtered(
                old(self).keep,
                old(self).path@.skip(old(self).place@ + 1),
            ),
    {
        let ghost path = self.path@;
        let ghost first = self.place@;
        loop
            invariant
                self.on_path(),
                self.path@ == path,
                path == old(self).path@,
                first == old(self).place@,
                self.graph == old(self).graph,
                self.keep == old(self).keep,
                self.step == old(self).step,
                self.head == old(self).head,
                first <= self.place@,
                self.graph@.filtered(self.keep, path.skip(self.place@ + 1)) == self.graph@.filtered(
                    self.keep,
                    path.skip(first + 1),
                ),
            decreases path.len() - self.place@,
        {
            let current = self.current.unwrap();
            proof {
                assert(self.graph@.has(path[self.place@]));
                assert(self.graph@.path_step(self.step, path, self.place@));
            }
            let following = self.step_from(current);
            if following == self.head {
                proof {
                    assert(cyc_next(self.place@, path.len() as int) == 0);
                    assert(self.place@ + 1 == path.len());
                }
                self.current = None;
                proof {
                    self.place = Ghost(path.len() as int);
                }
                return ;
            }
            self.current = Some(following);
            proof {
                self.place = Ghost(self.place@ + 1);
                assert(self.graph@.has(path[self.place@]));
                self.graph@.lemma_filtered_skip(self.keep, path, self.place@);
            }
            if self.is_kept(following) {
                return ;
            }
        }
    }

    /// Hands out the next half-edge of the walk, or nothing when the walk
    /// has come to its end.
    pub fn next(&mut self) -> (r: Option<HalfEdgeHandle>)
        requires
            old(self).wf(),
        ensures
            final(self).wf(),
            final(self).graph() == old(self).graph(),
            r == (if old(self).remaining().len() > 0 {
                Some(old(self).remaining()[0])
            } else {
                None
            }),
            final(self).remaining() == (if old(self).remaining().len() > 0 {
                old(self).remaining().skip(1)
            } else {
                Seq::empty()
            }),
            r matches Some(h) ==> old(self).graph()@.has(h),
    {
        match self.current {
            Some(current) => {
                proof {
                    self.graph@.lemma_filtered_skip(self.keep, self.path@, self.place@);
                    let rest = self.graph@.filtered(self.keep, self.path@.skip(self.place@ + 1));
                    assert((seq![current] + rest).skip(1) =~= rest);
                    assert(self.graph@.has(self.path@[self.place@]));
                }
                self.advance();
                Some(current)
            },
            None => {
                proof {
                    assert(self.path@.skip(self.place@) =~= Seq::empty());
                    assert(self.remaining() =~= Seq::empty());
                }
                None
            },
        }
    }
}

} // verus!
