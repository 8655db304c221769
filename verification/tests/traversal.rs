use half_edge_graph::{FaceHandle, HalfEdgeGraph, VertexHandle};

type Mesh = HalfEdgeGraph<()>;

// Two triangles that share the edge between v[1] and v[2], and a vertex
// that stands alone.
fn two_triangles() -> (Mesh, Vec<VertexHandle>, FaceHandle, FaceHandle) {
    let mut mesh = Mesh::new();
    let v: Vec<VertexHandle> = (0..5).map(|_| mesh.new_vertex(())).collect();
    let f1 = mesh.new_face(&[v[0], v[1], v[2]], ()).unwrap();
    let f2 = mesh.new_face(&[v[1], v[3], v[2]], ()).unwrap();
    (mesh, v, f1, f2)
}

#[test]
fn implied_edge_is_found() {
    let (mesh, v, _f1, _f2) = two_triangles();
    assert!(mesh.find_edge(v[3], v[1]).is_some());
    assert!(mesh.find_edge(v[1], v[3]).is_some());
    assert_eq!(mesh.find_edge(v[3], v[1]), mesh.find_edge(v[1], v[3]));
    assert!(mesh.find_edge(v[0], v[3]).is_none());
    assert!(mesh.find_edge(v[4], v[0]).is_none());
    assert_eq!(mesh.edge_len(), 5);
}

#[test]
fn shared_edge_reports_both_faces() {
    let (mesh, v, f1, f2) = two_triangles();
    let shared = mesh.edge(mesh.find_edge(v[1], v[2]).unwrap()).unwrap();
    let faces = shared.faces().to_handles();
    assert_eq!(faces.len(), 2);
    assert!(faces.contains(&f1));
    assert!(faces.contains(&f2));
    assert!(faces[0] != faces[1]);
}

#[test]
fn rim_edge_reports_one_face() {
    let (mesh, v, f1, f2) = two_triangles();
    let rim = mesh.edge(mesh.find_edge(v[0], v[1]).unwrap()).unwrap();
    assert_eq!(rim.faces().to_handles(), vec![f1]);
    let other = mesh.edge(mesh.find_edge(v[3], v[2]).unwrap()).unwrap();
    assert_eq!(other.faces().to_handles(), vec![f2]);
}

#[test]
fn bare_edge_reports_no_face() {
    let mut mesh = Mesh::new();
    let a = mesh.new_vertex(());
    let b = mesh.new_vertex(());
    let e = mesh.new_edge(a, b, ()).unwrap();
    assert!(mesh.edge(e).unwrap().faces().to_vec().is_empty());
    let mut faces = mesh.edge(e).unwrap().faces();
    assert!(faces.next().is_none());
    assert!(faces.next().is_none());
}

#[test]
fn face_traversals_follow_the_loop() {
    let (mesh, v, f1, f2) = two_triangles();
    let face = mesh.face(f1).unwrap();
    assert_eq!(face.vertices().to_handles(), vec![v[1], v[2], v[0]]);
    let edges = face.edges().to_handles();
    assert_eq!(
        edges,
        vec![
            mesh.find_edge(v[0], v[1]).unwrap(),
            mesh.find_edge(v[1], v[2]).unwrap(),
            mesh.find_edge(v[2], v[0]).unwrap(),
        ]
    );
    assert_eq!(face.faces().to_handles(), vec![f2]);
    let other = mesh.face(f2).unwrap();
    assert_eq!(other.vertices().to_handles(), vec![v[3], v[2], v[1]]);
    assert_eq!(other.faces().to_handles(), vec![f1]);
}

#[test]
fn vertex_traversals_go_round_the_vertex() {
    let (mesh, v, f1, f2) = two_triangles();
    let corner = mesh.vertex(v[1]).unwrap();
    let out = corner.out_half_edges().to_vec();
    let into = corner.in_half_edges().to_vec();
    assert_eq!(out.len(), 3);
    assert_eq!(into.len(), 3);
    for i in 0..3 {
        assert!(out[i].pair() == into[i]);
        assert!(into[i].vertex() == v[1]);
        assert!(out[i].pair().next() == out[(i + 1) % 3]);
    }
    assert!(out[0] == corner.hedge().unwrap());
    let mut round = corner.vertices().to_handles();
    assert_eq!(round.len(), 3);
    round.sort_by_key(|h| v.iter().position(|x| x == h));
    assert_eq!(round, vec![v[0], v[2], v[3]]);
    let targets: Vec<VertexHandle> = out.iter().map(|h| h.vertex().handle()).collect();
    assert_eq!(corner.vertices().to_handles(), targets);
    let edges = corner.edges().to_handles();
    let expected: Vec<_> = out.iter().map(|h| h.edge().handle()).collect();
    assert_eq!(edges, expected);
    let faces = corner.faces().to_handles();
    assert_eq!(faces.len(), 2);
    assert!(faces.contains(&f1));
    assert!(faces.contains(&f2));
    let tip = mesh.vertex(v[0]).unwrap();
    assert_eq!(tip.faces().to_handles(), vec![f1]);
    assert_eq!(tip.out_half_edges().to_vec().len(), 2);
}

#[test]
fn traversal_hands_out_one_at_a_time() {
    let (mesh, v, _f1, _f2) = two_triangles();
    let corner = mesh.vertex(v[2]).unwrap();
    let all = corner.out_half_edges().to_handles();
    let mut walk = corner.out_half_edges();
    let mut seen = Vec::new();
    while let Some(h) = walk.next() {
        seen.push(h.handle());
    }
    assert_eq!(seen, all);
    assert!(walk.next().is_none());
    let mut partly = corner.vertices();
    let first = partly.next().unwrap();
    let rest = partly.to_handles();
    assert_eq!(rest.len() + 1, all.len());
    assert!(!rest.contains(&first.handle()));
}

#[test]
fn isolated_vertex_has_empty_traversals() {
    let (mesh, v, _f1, _f2) = two_triangles();
    let lone = mesh.vertex(v[4]).unwrap();
    assert!(lone.hedge().is_none());
    assert!(lone.as_hedge().is_none());
    assert!(lone.out_half_edges().next().is_none());
    assert!(lone.in_half_edges().next().is_none());
    assert!(lone.vertices().to_handles().is_empty());
    assert!(lone.edges().to_handles().is_empty());
    assert!(lone.faces().to_handles().is_empty());
}

#[test]
fn full_iteration_lists_everything_once() {
    let (mesh, v, f1, f2) = two_triangles();
    assert_eq!(mesh.vertex_handles(), v);
    assert_eq!(mesh.face_handles(), vec![f1, f2]);
    assert_eq!(mesh.iter_edges().len(), 5);
    assert_eq!(mesh.iter_half_edges().len(), 10);
    let halves = mesh.half_edge_handles();
    for (i, a) in halves.iter().enumerate() {
        for (j, b) in halves.iter().enumerate() {
            assert_eq!(a == b, i == j);
        }
    }
    for edge in mesh.iter_edges() {
        assert!(edge.hedge().edge() == edge);
        assert!(edge.as_hedge().pair().edge() == edge);
    }
    for face in mesh.iter_faces() {
        assert!(face.hedge().face().unwrap() == face);
        assert!(face.as_hedge().as_face().unwrap() == face);
    }
}

#[test]
fn views_compare_by_handle() {
    let (mesh, v, f1, _f2) = two_triangles();
    let a = mesh.vertex(v[0]).unwrap();
    let again = mesh.vertex(v[0]).unwrap();
    let b = mesh.vertex(v[1]).unwrap();
    assert!(a == again);
    assert!(a != b);
    assert!(a == v[0]);
    assert!(v[0] == a);
    assert!(v[1] != a);
    let copy = a;
    assert!(copy == a);
    assert_eq!(a.handle(), v[0]);
    let face = mesh.face(f1).unwrap();
    assert!(face == f1);
    let h = face.hedge();
    assert!(h.as_pair() == h.pair());
    assert!(h.as_next() == h.next());
    assert!(h.as_prev() == h.prev());
    assert!(h.as_vertex() == h.vertex());
    assert!(h.as_edge() == h.edge());
    assert!(h.pair().pair() == h);
    assert!(h.next().prev() == h);
    assert!(h.prev().next() == h);
    assert!(h.pair().face().is_none());
    assert!(h.next().pair().face().is_some());
    assert!(h.next().pair().face().unwrap() != face);
}
