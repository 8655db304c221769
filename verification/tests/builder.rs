use half_edge_graph::{Data, HalfEdgeGraph, VertexHandle};

type Mesh = HalfEdgeGraph<()>;

struct Labels;

impl Data for Labels {
    type Face = String;
    type Edge = i32;
    type HalfEdge = u8;
    type Vertex = i64;
}

fn mesh_with_vertices(n: usize) -> (Mesh, Vec<VertexHandle>) {
    let mut mesh = Mesh::new();
    let mut vertices = Vec::new();
    for _ in 0..n {
        vertices.push(mesh.new_vertex(()));
    }
    (mesh, vertices)
}

fn face_vertex_handles(mesh: &Mesh, f: half_edge_graph::FaceHandle) -> Vec<VertexHandle> {
    mesh.face(f).unwrap().vertices().to_handles()
}

#[test]
fn new_graph_is_empty() {
    let mesh = Mesh::new();
    assert_eq!(mesh.vertex_len(), 0);
    assert_eq!(mesh.edge_len(), 0);
    assert_eq!(mesh.face_len(), 0);
    assert_eq!(mesh.half_edge_len(), 0);
    assert!(mesh.iter_vertices().is_empty());
    assert!(mesh.verify_invariants());
    let other = Mesh::default();
    assert_eq!(other.vertex_len(), 0);
}

#[test]
fn new_vertex_gives_fresh_handles() {
    let (mesh, v) = mesh_with_vertices(4);
    assert_eq!(mesh.vertex_len(), 4);
    for i in 0..4 {
        assert!(!v[i].is_null());
        assert!(mesh.vertex(v[i]).is_some());
        for j in 0..4 {
            assert_eq!(v[i] == v[j], i == j);
        }
    }
    let order: Vec<VertexHandle> = mesh.iter_vertices().iter().map(|x| x.handle()).collect();
    assert_eq!(order, v);
    assert_eq!(mesh.vertex_handles(), v);
}

#[test]
fn new_vertex_is_isolated() {
    let (mesh, v) = mesh_with_vertices(1);
    let view = mesh.vertex(v[0]).unwrap();
    assert!(view.hedge().is_none());
    assert!(view.out_half_edges().to_vec().is_empty());
    assert!(view.in_half_edges().to_vec().is_empty());
    assert!(view.vertices().to_vec().is_empty());
    assert!(view.edges().to_vec().is_empty());
    assert!(view.faces().to_vec().is_empty());
}

#[test]
fn new_edge_to_itself_is_refused() {
    let (mut mesh, v) = mesh_with_vertices(2);
    assert!(mesh.new_edge(v[0], v[0], ()).is_none());
    assert!(mesh.new_edge(v[1], v[1], ()).is_none());
    assert_eq!(mesh.edge_len(), 0);
    assert_eq!(mesh.half_edge_len(), 0);
    assert!(mesh.new_edge(VertexHandle::null(), VertexHandle::null(), ()).is_none());
}

#[test]
fn new_edge_twice_is_refused() {
    let (mut mesh, v) = mesh_with_vertices(2);
    let e = mesh.new_edge(v[0], v[1], ()).unwrap();
    assert!(mesh.new_edge(v[0], v[1], ()).is_none());
    assert!(mesh.new_edge(v[1], v[0], ()).is_none());
    assert_eq!(mesh.edge_len(), 1);
    assert_eq!(mesh.half_edge_len(), 2);
    assert_eq!(mesh.find_edge(v[0], v[1]), Some(e));
    assert_eq!(mesh.find_edge(v[1], v[0]), Some(e));
}

#[test]
fn new_edge_with_unknown_vertex_is_refused() {
    let (mut small, a) = mesh_with_vertices(1);
    let (_large, b) = mesh_with_vertices(3);
    assert!(small.vertex(b[2]).is_none());
    assert!(small.new_edge(a[0], b[2], ()).is_none());
    assert!(small.new_edge(b[2], a[0], ()).is_none());
    assert!(small.new_edge(a[0], VertexHandle::null(), ()).is_none());
    assert_eq!(small.edge_len(), 0);
    assert_eq!(small.vertex_len(), 1);
}

#[test]
fn new_edge_links_an_isolated_pair() {
    let (mut mesh, v) = mesh_with_vertices(2);
    let e = mesh.new_edge(v[0], v[1], ()).unwrap();
    let edge = mesh.edge(e).unwrap();
    let h1 = edge.hedge();
    let h2 = h1.pair();
    assert!(h1.vertex() == v[1]);
    assert!(h2.vertex() == v[0]);
    assert!(h1.next() == h2);
    assert!(h1.prev() == h2);
    assert!(h2.next() == h1);
    assert!(h2.prev() == h1);
    assert!(h1.face().is_none());
    assert!(h2.face().is_none());
    assert!(h1.edge() == e);
    assert!(h2.edge() == e);
    assert!(mesh.vertex(v[0]).unwrap().hedge().unwrap() == h1);
    assert!(mesh.vertex(v[1]).unwrap().hedge().unwrap() == h2);
    assert_eq!(mesh.find_half_edge(v[0], v[1]), Some(h1.handle()));
    assert_eq!(mesh.find_half_edge(v[1], v[0]), Some(h2.handle()));
    let ends = edge.vertices();
    assert!(ends[0] == v[1]);
    assert!(ends[1] == v[0]);
}

#[test]
fn new_edge_splices_into_a_ring() {
    let (mut mesh, v) = mesh_with_vertices(4);
    mesh.new_edge(v[0], v[1], ()).unwrap();
    mesh.new_edge(v[0], v[2], ()).unwrap();
    mesh.new_edge(v[3], v[0], ()).unwrap();
    let centre = mesh.vertex(v[0]).unwrap();
    assert_eq!(centre.vertices().to_handles(), vec![v[1], v[2], v[3]]);
    let out = centre.out_half_edges().to_vec();
    assert_eq!(out.len(), 3);
    for h in &out {
        assert!(h.pair().vertex() == v[0]);
        assert!(h.pair().next().pair().vertex() == v[0]);
    }
    assert!(out[0].pair().next() == out[1]);
    assert!(out[1].pair().next() == out[2]);
    assert!(out[2].pair().next() == out[0]);
    assert!(mesh.verify_invariants());
}

#[test]
fn edge_payloads_are_kept() {
    let mut graph: HalfEdgeGraph<Labels> = HalfEdgeGraph::new();
    let a = graph.new_vertex(7);
    let b = graph.new_vertex(-3);
    let e = graph.new_edge(a, b, 42).unwrap();
    assert_eq!(graph.get_vertex_data(a), Some(&7));
    assert_eq!(graph.get_vertex_data(b), Some(&-3));
    assert_eq!(graph.get_edge_data(e), Some(&42));
    let h = graph.find_half_edge(a, b).unwrap();
    assert_eq!(graph.get_half_edge_data(h), Some(&0));
    *graph.get_vertex_data_mut(a).unwrap() = 8;
    *graph.get_edge_data_mut(e).unwrap() += 1;
    *graph.get_half_edge_data_mut(h).unwrap() = 200;
    assert_eq!(graph.get_vertex_data(a), Some(&8));
    assert_eq!(graph.get_edge_data(e), Some(&43));
    assert_eq!(graph.get_half_edge_data(h), Some(&200));
    assert_eq!(graph.vertex(a).unwrap().data(), &8);
    assert_eq!(graph.edge(e).unwrap().data(), &43);
    assert!(graph.find_half_edge(a, b) == Some(h));
    assert!(graph.verify_invariants());
    let f = graph.new_face(&[a, b], String::from("lens")).unwrap();
    assert_eq!(graph.get_face_data(f), Some(&String::from("lens")));
    graph.get_face_data_mut(f).unwrap().push('!');
    assert_eq!(graph.face(f).unwrap().data(), "lens!");
}

#[test]
fn indexing_gives_the_payload() {
    let mut graph: HalfEdgeGraph<Labels> = HalfEdgeGraph::new();
    let a = graph.new_vertex(5);
    let b = graph.new_vertex(6);
    let e = graph.new_edge(a, b, 11).unwrap();
    let h = graph.find_half_edge(b, a).unwrap();
    let f = graph.new_face(&[a, b], String::from("f")).unwrap();
    assert_eq!(graph[a], 5);
    assert_eq!(graph[b], 6);
    assert_eq!(graph[e], 11);
    assert_eq!(graph[h], 0);
    assert_eq!(graph[f], "f");
}

#[test]
fn unknown_handles_report_absence() {
    let (mut small, _a) = mesh_with_vertices(1);
    let (mut large, b) = mesh_with_vertices(3);
    let e = large.new_edge(b[0], b[1], ()).unwrap();
    let h = large.find_half_edge(b[0], b[1]).unwrap();
    let f = large.new_face(&[b[0], b[1], b[2]], ()).unwrap();
    assert!(small.vertex(b[1]).is_none());
    assert!(small.edge(e).is_none());
    assert!(small.half_edge(h).is_none());
    assert!(small.face(f).is_none());
    assert!(small.get_vertex_data(b[1]).is_none());
    assert!(small.get_edge_data(e).is_none());
    assert!(small.get_half_edge_data(h).is_none());
    assert!(small.get_face_data(f).is_none());
    assert!(small.get_vertex_data_mut(b[1]).is_none());
    assert!(small.get_edge_data_mut(e).is_none());
    assert!(small.get_half_edge_data_mut(h).is_none());
    assert!(small.get_face_data_mut(f).is_none());
    assert!(small.vertex_mut(b[1]).is_none());
    assert!(small.find_edge(b[1], b[2]).is_none());
    assert!(small.find_half_edge(b[2], b[1]).is_none());
}

#[test]
fn find_or_create_finds_before_it_creates() {
    let (mut mesh, v) = mesh_with_vertices(3);
    let made = mesh.find_or_create_half_edge(v[0], v[1]).unwrap();
    assert_eq!(mesh.edge_len(), 1);
    assert!(mesh.half_edge(made).unwrap().vertex() == v[1]);
    let found = mesh.find_or_create_half_edge(v[0], v[1]).unwrap();
    assert_eq!(found, made);
    assert_eq!(mesh.edge_len(), 1);
    let back = mesh.find_or_create_half_edge(v[1], v[0]).unwrap();
    assert!(mesh.half_edge(made).unwrap().pair() == back);
    assert_eq!(mesh.edge_len(), 1);
    assert!(mesh.find_or_create_half_edge(v[2], v[2]).is_none());
    assert_eq!(mesh.edge_len(), 1);
}

#[test]
fn new_face_needs_two_vertices() {
    let (mut mesh, v) = mesh_with_vertices(2);
    assert!(mesh.new_face(&[], ()).is_none());
    assert!(mesh.new_face(&[v[0]], ()).is_none());
    assert!(mesh.new_face(&[v[1]], ()).is_none());
    assert_eq!(mesh.face_len(), 0);
    assert_eq!(mesh.edge_len(), 0);
}

#[test]
fn new_face_walks_its_vertices_in_order() {
    let (mut mesh, v) = mesh_with_vertices(5);
    let f = mesh.new_face(&[v[0], v[1], v[2], v[3], v[4]], ()).unwrap();
    assert_eq!(
        face_vertex_handles(&mesh, f),
        vec![v[1], v[2], v[3], v[4], v[0]]
    );
    let face = mesh.face(f).unwrap();
    let first = face.hedge();
    assert!(first.vertex() == v[1]);
    assert!(first.pair().vertex() == v[0]);
    let mut h = first;
    for _ in 0..5 {
        assert!(h.face().unwrap() == f);
        h = h.next();
    }
    assert!(h == first);
    assert_eq!(face.edges().to_vec().len(), 5);
    assert!(face.faces().to_vec().is_empty());
    assert_eq!(mesh.edge_len(), 5);
    assert_eq!(mesh.half_edge_len(), 10);
}

#[test]
fn new_face_on_two_vertices() {
    let (mut mesh, v) = mesh_with_vertices(2);
    let f = mesh.new_face(&[v[0], v[1]], ()).unwrap();
    assert_eq!(face_vertex_handles(&mesh, f), vec![v[1], v[0]]);
    assert_eq!(mesh.edge_len(), 1);
    assert!(mesh.verify_invariants());
}

#[test]
fn new_face_over_a_faced_half_edge_is_refused() {
    let (mut mesh, v) = mesh_with_vertices(4);
    mesh.new_face(&[v[0], v[1], v[2]], ()).unwrap();
    assert!(mesh.new_face(&[v[0], v[1], v[2]], ()).is_none());
    assert!(mesh.new_face(&[v[1], v[2], v[0]], ()).is_none());
    assert!(mesh.new_face(&[v[0], v[1], v[3]], ()).is_none());
    assert_eq!(mesh.face_len(), 1);
    assert!(mesh.verify_invariants());
}

#[test]
fn new_face_on_the_other_side_is_accepted() {
    let (mut mesh, v) = mesh_with_vertices(3);
    let front = mesh.new_face(&[v[0], v[1], v[2]], ()).unwrap();
    let back = mesh.new_face(&[v[2], v[1], v[0]], ()).unwrap();
    assert!(front != back);
    assert_eq!(mesh.face_len(), 2);
    assert_eq!(mesh.edge_len(), 3);
    assert_eq!(face_vertex_handles(&mesh, back), vec![v[1], v[0], v[2]]);
    for h in mesh.iter_half_edges() {
        assert!(h.face().is_some());
        assert!(h.face().unwrap() != h.pair().face().unwrap());
    }
    assert!(mesh.verify_invariants());
}

#[test]
fn failed_new_face_keeps_the_edges_it_made() {
    let (mut mesh, v) = mesh_with_vertices(4);
    mesh.new_face(&[v[0], v[1], v[2]], ()).unwrap();
    assert_eq!(mesh.edge_len(), 3);
    assert!(mesh.new_face(&[v[3], v[0], v[1]], ()).is_none());
    assert_eq!(mesh.face_len(), 1);
    assert_eq!(mesh.edge_len(), 5);
    assert!(mesh.find_edge(v[3], v[0]).is_some());
    assert!(mesh.find_edge(v[1], v[3]).is_some());
    assert!(mesh.verify_invariants());
}

#[test]
fn new_edge_at_an_enclosed_vertex_is_refused() {
    let (mut mesh, v) = mesh_with_vertices(5);
    mesh.new_face(&[v[0], v[1], v[2]], ()).unwrap();
    mesh.new_face(&[v[0], v[2], v[3]], ()).unwrap();
    mesh.new_face(&[v[0], v[3], v[1]], ()).unwrap();
    assert_eq!(mesh.vertex(v[0]).unwrap().faces().to_vec().len(), 3);
    let edges = mesh.edge_len();
    assert!(mesh.new_edge(v[0], v[4], ()).is_none());
    assert!(mesh.new_edge(v[4], v[0], ()).is_none());
    assert!(mesh.new_face(&[v[0], v[4], v[1]], ()).is_none());
    assert_eq!(mesh.edge_len(), edges);
    assert!(mesh.vertex(v[4]).unwrap().hedge().is_none());
    assert!(mesh.verify_invariants());
    assert!(mesh.new_edge(v[1], v[4], ()).is_some());
}

#[test]
fn new_face_that_names_a_vertex_twice_leaves_a_valid_graph() {
    let (mut mesh, v) = mesh_with_vertices(3);
    let _ = mesh.new_face(&[v[0], v[1], v[0], v[2]], ());
    assert!(mesh.verify_invariants());
    let _ = mesh.new_face(&[v[0], v[1], v[0], v[1]], ());
    assert!(mesh.verify_invariants());
    for face in mesh.iter_faces() {
        let mut h = face.hedge();
        let n = face.vertices().to_vec().len();
        for _ in 0..n {
            assert!(h.face().unwrap() == face);
            h = h.next();
        }
        assert!(h == face.hedge());
    }
}

#[test]
fn new_face_reorders_a_ring() {
    // Three edges leave the centre in the order of their making; the face
    // asks for the first and the third to follow each other.
    let (mut mesh, v) = mesh_with_vertices(4);
    mesh.new_edge(v[0], v[1], ()).unwrap();
    mesh.new_edge(v[0], v[2], ()).unwrap();
    mesh.new_edge(v[0], v[3], ()).unwrap();
    let f = mesh.new_face(&[v[1], v[0], v[3]], ()).unwrap();
    assert_eq!(face_vertex_handles(&mesh, f), vec![v[0], v[3], v[1]]);
    let into = mesh.find_half_edge(v[1], v[0]).unwrap();
    let out = mesh.find_half_edge(v[0], v[3]).unwrap();
    assert!(mesh.half_edge(into).unwrap().next() == out);
    let centre = mesh.vertex(v[0]).unwrap();
    let mut round = centre.vertices().to_handles();
    round.sort_by_key(|h| v.iter().position(|x| x == h));
    assert_eq!(round, vec![v[1], v[2], v[3]]);
    assert!(mesh.verify_invariants());
}
