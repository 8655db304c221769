//! A half-edge graph: vertices, edges, faces and the directed half-edges that
//! tie them together, kept in handle-addressed arenas and built up
//! incrementally by operations that preserve the half-edge invariants.
//!
//! The graph is [`HalfEdgeGraph`]. Its mathematical model, and what it
//! means for a graph to be well formed, is in [`topology`]. The builder
//! ([`builder`]) adds vertices, edges and faces; the solver ([`solver`])
//! finds free places in the ring of a vertex and reorders rings. What
//! these do is stated on the model in [`changes`], [`adjoin`], [`stamp`],
//! [`corners`] and [`polygon`], where it is also proved that they keep a
//! graph well formed. The traversals are in [`traversal`], [`iterators`]
//! and [`iterators_mut`], the views in [`views`] and [`views_mut`]. What
//! holds of every graph is collected in [`laws`].
//!
//! The arenas ([`arena`]) get their keys from the slot map of the
//! `slotmap` crate, which is reached through [`slots`]; the builder pairs
//! up the vertices of a face with `itertools`, reached through
//! [`windows`]. What those two files state of the crates is taken on
//! trust; everything else is verified.

pub mod adjoin;
pub mod arena;
pub mod builder;
pub mod changes;
pub mod corners;
pub mod checker;
pub mod data;
pub mod graph;
pub mod handle;
pub mod indexing;
pub mod iterators;
pub mod iterators_mut;
pub mod laws;
pub mod polygon;
pub mod slots;
pub mod solver;
pub mod stamp;
pub mod topology;
pub mod traversal;
pub mod views;
pub mod views_mut;
pub mod windows;

pub use handle::{EdgeHandle, FaceHandle, HalfEdgeHandle, VertexHandle};
pub use data::Data;
pub use graph::HalfEdgeGraph;
pub use views::{EdgeFn, FaceFn, HalfEdgeFn, VertexFn};
pub use iterators::{
    EdgeFaces, FaceEdges, FaceFaces, FaceVertices, VertexEdges, VertexFaces, VertexInHalfEdges,
    VertexOutHalfEdges, VertexVertex,
};
pub use iterators_mut::{
    EdgeFacesMut, EdgesMut, FaceEdgesMut, FaceFacesMut, FaceVerticesMut, FacesMut, HalfEdgesMut,
    VertexEdgesMut, VertexFacesMut, VertexInHalfEdgesMut, VertexOutHalfEdgesMut, VertexVertexMut,
    VerticesMut,
};
pub use views_mut::{EdgeFnMut, FaceFnMut, HalfEdgeFnMut, VertexFnMut};
