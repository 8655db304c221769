use half_edge_graph::{HalfEdgeGraph, HalfEdgeHandle, VertexHandle};

type Mesh = HalfEdgeGraph<()>;

fn links(mesh: &Mesh) -> Vec<(HalfEdgeHandle, HalfEdgeHandle, HalfEdgeHandle, HalfEdgeHandle)> {
    mesh.iter_half_edges()
        .iter()
        .map(|h| {
            (
                h.handle(),
                h.pair().handle(),
                h.next().handle(),
                h.prev().handle(),
            )
        })
        .collect()
}

#[test]
fn checker_passes_on_a_grid() {
    let mut mesh = Mesh::new();
    let v: Vec<VertexHandle> = (0..9).map(|_| mesh.new_vertex(())).collect();
    mesh.new_face(&[v[0], v[1], v[4], v[3]], ()).unwrap();
    mesh.new_face(&[v[3], v[4], v[7], v[6]], ()).unwrap();
    mesh.new_face(&[v[1], v[2], v[5], v[4]], ()).unwrap();
    mesh.new_face(&[v[4], v[5], v[8], v[7]], ()).unwrap();
    mesh.new_face(&[v[0], v[3], v[6], v[7], v[8], v[5], v[2], v[1]], ())
        .unwrap();
    assert!(mesh.verify_invariants());
    assert_eq!(mesh.face_len(), 5);
    assert_eq!(mesh.edge_len(), 12);
    for h in mesh.iter_half_edges() {
        assert!(h.face().is_some());
    }
    assert_eq!(mesh.vertex(v[4]).unwrap().faces().to_vec().len(), 4);
}

#[test]
fn checker_reads_only_and_repeats_itself() {
    let mut mesh = Mesh::new();
    let v: Vec<VertexHandle> = (0..4).map(|_| mesh.new_vertex(())).collect();
    mesh.new_face(&[v[0], v[1], v[2]], ()).unwrap();
    mesh.new_edge(v[2], v[3], ()).unwrap();
    let before = links(&mesh);
    let first = mesh.verify_invariants();
    let between = links(&mesh);
    let second = mesh.verify_invariants();
    let after = links(&mesh);
    assert!(first);
    assert_eq!(first, second);
    assert_eq!(before, between);
    assert_eq!(before, after);
    assert_eq!(mesh.vertex_len(), 4);
    assert_eq!(mesh.edge_len(), 4);
    assert_eq!(mesh.face_len(), 1);
}
