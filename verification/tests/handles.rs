use half_edge_graph::arena::Arena;
use half_edge_graph::{EdgeHandle, FaceHandle, HalfEdgeGraph, HalfEdgeHandle, VertexHandle};
use std::collections::HashSet;

#[test]
fn null_handles_are_null() {
    assert!(VertexHandle::null().is_null());
    assert!(EdgeHandle::null().is_null());
    assert!(HalfEdgeHandle::null().is_null());
    assert!(FaceHandle::null().is_null());
    assert!(VertexHandle::null() == VertexHandle::null());
}

#[test]
fn null_handles_name_nothing() {
    let mut mesh: HalfEdgeGraph<()> = HalfEdgeGraph::new();
    let a = mesh.new_vertex(());
    let b = mesh.new_vertex(());
    mesh.new_face(&[a, b], ()).unwrap();
    assert!(mesh.vertex(VertexHandle::null()).is_none());
    assert!(mesh.edge(EdgeHandle::null()).is_none());
    assert!(mesh.half_edge(HalfEdgeHandle::null()).is_none());
    assert!(mesh.face(FaceHandle::null()).is_none());
}

#[test]
fn handles_of_entities_are_not_null() {
    let mut mesh: HalfEdgeGraph<()> = HalfEdgeGraph::new();
    let a = mesh.new_vertex(());
    let b = mesh.new_vertex(());
    let e = mesh.new_edge(a, b, ()).unwrap();
    let h = mesh.find_half_edge(a, b).unwrap();
    let f = mesh.new_face(&[a, b], ()).unwrap();
    assert!(!a.is_null());
    assert!(!b.is_null());
    assert!(!e.is_null());
    assert!(!h.is_null());
    assert!(!f.is_null());
    assert!(a != VertexHandle::null());
}

#[test]
fn default_handles_are_null() {
    assert!(VertexHandle::default().is_null());
    assert!(EdgeHandle::default().is_null());
    assert!(HalfEdgeHandle::default().is_null());
    assert!(FaceHandle::default().is_null());
}

#[test]
fn handles_can_be_sorted() {
    let mut mesh: HalfEdgeGraph<()> = HalfEdgeGraph::new();
    let mut handles: Vec<VertexHandle> = (0..6).map(|_| mesh.new_vertex(())).collect();
    let made = handles.clone();
    handles.reverse();
    handles.sort();
    handles.dedup();
    assert_eq!(handles.len(), 6);
    for h in made {
        assert!(handles.binary_search(&h).is_ok());
    }
}

#[test]
fn handles_can_be_hashed() {
    let mut mesh: HalfEdgeGraph<()> = HalfEdgeGraph::new();
    let mut seen = HashSet::new();
    for _ in 0..10 {
        assert!(seen.insert(mesh.new_vertex(())));
    }
    for v in mesh.vertex_handles() {
        assert!(!seen.insert(v));
    }
    assert_eq!(seen.len(), 10);
}

#[test]
fn arena_stores_under_fresh_keys() {
    let mut arena: Arena<&str> = Arena::new();
    assert_eq!(arena.len(), 0);
    let a = arena.allocate("a");
    let b = arena.allocate("b");
    let c = arena.allocate("c");
    assert!(a != b && b != c && a != c);
    assert_eq!(arena.len(), 3);
    assert!(arena.contains(a));
    assert!(arena.contains(c));
    assert_eq!(arena.get(a), Some(&"a"));
    assert_eq!(arena.get(b), Some(&"b"));
    assert_eq!(*arena.at(c), "c");
    *arena.get_mut(b).unwrap() = "B";
    *arena.at_mut(c) = "C";
    assert_eq!(arena.get(b), Some(&"B"));
    assert_eq!(arena.get(c), Some(&"C"));
    assert_eq!(arena.get(a), Some(&"a"));
    assert_eq!(arena.key_at(0), a);
    assert_eq!(arena.key_at(2), c);
}

#[test]
fn arena_reports_unknown_keys_as_absent() {
    let mut small: Arena<u8> = Arena::new();
    let mut large: Arena<u8> = Arena::new();
    small.allocate(1);
    large.allocate(1);
    let far = large.allocate(2);
    assert!(!small.contains(far));
    assert!(small.get(far).is_none());
    assert!(small.get_mut(far).is_none());
    assert!(!small.contains(slotmap::DefaultKey::default()));
}
