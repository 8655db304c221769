use half_edge_graph::{EdgeHandle, FaceHandle, HalfEdgeGraph, VertexHandle};
use itertools::Itertools;
use std::collections::{HashMap, HashSet};

type Mesh = HalfEdgeGraph<()>;

fn check_mesh(
    mesh: &Mesh,
    vertices: &HashSet<VertexHandle>,
    edges: &HashMap<EdgeHandle, (VertexHandle, VertexHandle)>,
    faces: &HashMap<FaceHandle, Vec<VertexHandle>>,
) {
    assert!(mesh.verify_invariants());

    // Create auxiliary mappings
    let vertex_edges = {
        let mut mapping: HashMap<VertexHandle, Vec<EdgeHandle>> =
            vertices.iter().map(|v| (*v, Vec::new())).collect();

        for (&edge, &(v1, v2)) in edges {
            mapping.entry(v1).or_insert_with(Vec::new).push(edge);
            mapping.entry(v2).or_insert_with(Vec::new).push(edge);
        }

        mapping
    };
    let vertex_vertex = {
        let mut mapping: HashMap<VertexHandle, Vec<VertexHandle>> =
            vertices.iter().map(|v| (*v, Vec::new())).collect();

        for &(v1, v2) in edges.values() {
            mapping.entry(v1).or_insert_with(Vec::new).push(v2);
            mapping.entry(v2).or_insert_with(Vec::new).push(v1);
        }

        mapping
    };
    let vertex_faces = {
        let mut mapping: HashMap<VertexHandle, Vec<FaceHandle>> =
            vertices.iter().map(|v| (*v, Vec::new())).collect();

        for (&face, vertices) in faces {
            for vertex in vertices {
                mapping.get_mut(vertex).unwrap().push(face);
            }
        }
        mapping
    };

    let edge_lookup = {
        let mut mapping = HashMap::new();
        for (edge, (v1, v2)) in edges {
            mapping.insert((*v1, *v2), *edge);
            mapping.insert((*v2, *v1), *edge);
        }
        mapping
    };

    let (edge_faces, face_edges) = {
        let mut face_mapping: HashMap<FaceHandle, Vec<EdgeHandle>> =
            faces.keys().map(|h| (*h, Vec::new())).collect();
        let mut edge_mapping: HashMap<EdgeHandle, Vec<FaceHandle>> =
            edges.keys().map(|h| (*h, Vec::new())).collect();

        for (face, vertices) in faces {
            for (v1, v2) in vertices
                .iter()
                .chain(std::iter::once(vertices.first().unwrap()))
                .tuple_windows()
            {
                let edge = edge_lookup[&(*v1, *v2)];
                face_mapping.get_mut(face).unwrap().push(edge);
                edge_mapping.get_mut(&edge).unwrap().push(*face);
            }
        }

        (edge_mapping, face_mapping)
    };

    // Make sure we can iterate over all items once
    {
        // create a copy, so we can remove visited items
        let mut vertices = (*vertices).clone();
        let mut edges = (*edges).clone();
        let mut faces = (*faces).clone();

        for vertex in mesh.iter_vertices() {
            assert!(
                vertices.contains(&vertex.handle()),
                "Unknown vertex {:?}",
                vertex.handle()
            );
            vertices.remove(&vertex.handle());
        }
        for edge in mesh.iter_edges() {
            assert!(
                edges.contains_key(&edge.handle()),
                "Unknown edge {:?}",
                edge.handle()
            );
            edges.remove(&edge.handle());
        }
        for face in mesh.iter_faces() {
            assert!(
                faces.contains_key(&face.handle()),
                "Unknown face {:?}",
                face.handle()
            );
            faces.remove(&face.handle());
        }
        assert!(vertices.is_empty());
        assert!(edges.is_empty());
        assert!(faces.is_empty());
    }

    // check half edges
    for hedge in mesh.iter_half_edges() {
        assert!(hedge != hedge.pair());
        assert!(hedge == hedge.pair().pair());
        assert!(hedge == hedge.next().prev());
        assert!(hedge.edge() == hedge.pair().edge());
        assert!(hedge.face() == hedge.next().face());
        assert!(hedge.vertex() != hedge.pair().vertex());
    }

    // verify vertexes
    for vertex in mesh.iter_vertices() {
        let mut edges: HashSet<_> = vertex_edges[&vertex.handle()].iter().collect();
        for in_hedge in vertex.in_half_edges().to_vec() {
            assert!(in_hedge.vertex() == vertex);
            let edge = in_hedge.edge().handle();
            assert!(edges.contains(&edge));
            edges.remove(&edge);
        }
        assert!(edges.is_empty());

        let mut vertices: HashSet<_> = vertex_vertex[&vertex.handle()].iter().collect();
        for out_hedge in vertex.out_half_edges().to_vec() {
            assert!(out_hedge.pair().vertex() == vertex);
            // check that an edge actually exists
            let target = out_hedge.vertex().handle();
            assert!(vertices.remove(&target));
        }
        assert!(vertices.is_empty());

        let mut vertices: HashSet<_> = vertex_vertex[&vertex.handle()].iter().collect();
        for vertex in vertex.vertices().to_vec() {
            assert!(vertices.remove(&vertex.handle()));
        }
        assert!(vertices.is_empty());

        let mut edges: HashSet<_> = vertex_edges[&vertex.handle()].iter().collect();
        for edge in vertex.edges().to_vec() {
            let edge = edge.handle();
            assert!(edges.remove(&edge));
        }
        assert!(
            edges.is_empty(),
            "Not all edges where visited by vertex.edges()"
        );

        let mut faces: HashSet<_> = vertex_faces[&vertex.handle()].iter().collect();
        for face in vertex.faces().to_vec() {
            let face = face.handle();
            assert!(faces.remove(&face));
        }
    }

    // verify edges
    for edge in mesh.iter_edges() {
        let [v1, v2] = edge.vertices();
        let v1 = v1.handle();
        let v2 = v2.handle();

        assert!(edge_lookup[&(v1, v2)] == edge);

        let mut faces: HashSet<_> = edge_faces[&edge.handle()].iter().collect();
        for face in edge.faces().to_vec() {
            let face = face.handle();
            assert!(faces.remove(&face));
        }
        assert!(faces.is_empty());
    }

    // verify faces
    for face in mesh.iter_faces() {
        let mut vertices: HashSet<VertexHandle> = faces[&face.handle()].iter().cloned().collect();

        for v in face.vertices().to_vec() {
            assert!(vertices.remove(&v.handle()));
        }
        assert!(vertices.is_empty());

        let mut edges: HashSet<EdgeHandle> = face_edges[&face.handle()].iter().cloned().collect();

        for e in face.edges().to_vec() {
            assert!(edges.remove(&e.handle()));
        }
        assert!(edges.is_empty());
    }
}

#[test]
fn simple_mesh_edges() {
    /*
     * mesh layout:
     *        e1
     *     v1 --- v2        v5
     *      |    /
     *   e3 |   / e2
     *      |  /
     *       v3 ----- v4
     *            e4
     */
    let mut mesh = Mesh::default();

    let v1 = mesh.new_vertex(());
    let v2 = mesh.new_vertex(());
    let v3 = mesh.new_vertex(());
    let v4 = mesh.new_vertex(());
    let v5 = mesh.new_vertex(());

    let e1 = mesh.new_edge(v1, v2, ()).expect("Failed to create edge");

    assert!(
        mesh.new_edge(v1, v2, ()).is_none(),
        "Two vertices can only have max one edge between them"
    );
    // Test the other way around
    assert!(
        mesh.new_edge(v2, v1, ()).is_none(),
        "Two vertices can only have max one edge between them"
    );

    let e2 = mesh.new_edge(v2, v3, ()).expect("Failed to create edge");
    let e3 = mesh.new_edge(v3, v1, ()).expect("Failed to create edge");
    let e4 = mesh.new_edge(v3, v4, ()).expect("Failed to create edge");

    check_mesh(
        &mesh,
        &vec![v1, v2, v3, v4, v5].into_iter().collect(),
        &vec![
            (e1, (v1, v2)),
            (e2, (v2, v3)),
            (e3, (v3, v1)),
            (e4, (v3, v4)),
        ]
        .into_iter()
        .collect(),
        &vec![].into_iter().collect(),
    );
}

#[test]
fn simple_mesh_face() {
    /*
     * mesh layout:
     *        e1
     *     v1 --- v2        v5
     *      | f1 /  \
     *   e3 |   / e2 \ e5
     *      |  /  f2  \
     *       v3 ----- v4
     *            e4
     */
    let mut mesh = Mesh::default();

    let v1 = mesh.new_vertex(());
    let v2 = mesh.new_vertex(());
    let v3 = mesh.new_vertex(());
    let v4 = mesh.new_vertex(());
    let v5 = mesh.new_vertex(());

    let f1 = mesh
        .new_face(&[v1, v2, v3], ())
        .expect("Failed to create face");

    let f2 = mesh
        .new_face(&[v2, v4, v3], ())
        .expect("Failed to create face");

    let e1 = mesh.find_edge(v1, v2).expect("Failed to find edge");
    let e2 = mesh.find_edge(v2, v3).expect("Failed to find edge");
    let e3 = mesh.find_edge(v1, v3).expect("Failed to find edge");
    let e4 = mesh.find_edge(v3, v4).expect("Failed to find edge");
    let e5 = mesh.find_edge(v4, v2).expect("Failed to find edge");

    check_mesh(
        &mesh,
        &vec![v1, v2, v3, v4, v5].into_iter().collect(),
        &vec![
            (e1, (v1, v2)),
            (e2, (v2, v3)),
            (e3, (v3, v1)),
            (e4, (v3, v4)),
            (e5, (v4, v2)),
        ]
        .into_iter()
        .collect(),
        &vec![(f1, vec![v1, v2, v3]), (f2, vec![v2, v4, v3])]
            .into_iter()
            .collect(),
    );
}

fn calc_face_edges(
    mesh: &Mesh,
    vertices: &[VertexHandle],
) -> Vec<(EdgeHandle, (VertexHandle, VertexHandle))> {
    vertices
        .iter()
        .chain(std::iter::once(&vertices[0]))
        .tuple_windows()
        .map(|(v1, v2)| {
            let edge = mesh.find_edge(*v1, *v2).unwrap();
            (edge, (*v1, *v2))
        })
        .collect()
}

#[test]
fn mesh_1() {
    let mut mesh = Mesh::default();

    let v1 = mesh.new_vertex(());
    let v2 = mesh.new_vertex(());
    let v3 = mesh.new_vertex(());
    let v4 = mesh.new_vertex(());
    let v5 = mesh.new_vertex(());
    let v6 = mesh.new_vertex(());

    let f1 = mesh
        .new_face(&[v1, v2, v3, v4], ())
        .expect("Failed to create face");
    let f2 = mesh
        .new_face(&[v2, v1, v5, v6], ())
        .expect("Failed to create face");

    let f1_edges = calc_face_edges(&mesh, &[v1, v2, v3, v4]);
    let f2_edges = calc_face_edges(&mesh, &[v2, v1, v5, v6]);
    let edges = f1_edges.iter().chain(f2_edges.iter()).cloned().collect();

    check_mesh(
        &mesh,
        &[v1, v2, v3, v4, v5, v6].iter().copied().collect(),
        &edges,
        &[(f1, vec![v1, v2, v3, v4]), (f2, vec![v2, v1, v5, v6])]
            .iter()
            .cloned()
            .collect(),
    );
}

/// A mesh under construction together with what it is expected to hold.
struct Expected {
    mesh: Mesh,
    vertices: HashSet<VertexHandle>,
    edges: HashMap<EdgeHandle, (VertexHandle, VertexHandle)>,
    faces: HashMap<FaceHandle, Vec<VertexHandle>>,
}

impl Expected {
    fn new() -> Self {
        Expected {
            mesh: Mesh::default(),
            vertices: HashSet::new(),
            edges: HashMap::new(),
            faces: HashMap::new(),
        }
    }

    fn vertex(&mut self) -> VertexHandle {
        let v = self.mesh.new_vertex(());
        self.vertices.insert(v);
        v
    }

    fn face(&mut self, vertices: &[VertexHandle]) -> FaceHandle {
        let vertices = vertices.to_vec();
        let f = self
            .mesh
            .new_face(&vertices, ())
            .expect("Failed to create face");

        for (&v1, &v2) in vertices.iter().circular_tuple_windows() {
            let edge = self.mesh.find_edge(v1, v2).expect("Failed to find edge");
            self.edges.insert(edge, (v1, v2));
        }

        self.faces.insert(f, vertices);
        f
    }

    fn check(&self) {
        check_mesh(&self.mesh, &self.vertices, &self.edges, &self.faces);
    }
}

#[test]
fn mesh_grid() {
    let mut m = Expected::new();
    let v1 = m.vertex();
    let v2 = m.vertex();
    let v3 = m.vertex();
    let v4 = m.vertex();
    let v5 = m.vertex();
    let v6 = m.vertex();
    let v7 = m.vertex();
    let v8 = m.vertex();
    let v9 = m.vertex();

    m.face(&[v1, v2, v5, v4]);
    m.face(&[v4, v5, v8, v7]);
    m.face(&[v2, v3, v6, v5]);
    m.face(&[v5, v6, v9, v8]);
    m.face(&[v1, v4, v7, v8, v9, v6, v3, v2]);

    m.check();
    assert_eq!(m.mesh.iter_faces().len(), 5);
    assert_eq!(m.mesh.iter_edges().len(), 12);
    assert_eq!(m.mesh.iter_half_edges().len(), 24);
}

#[test]
fn mesh_hexagon() {
    let mut m = Expected::new();
    let v1 = m.vertex();
    let v2 = m.vertex();
    let v3 = m.vertex();
    let v4 = m.vertex();
    let v5 = m.vertex();
    let v6 = m.vertex();
    let v7 = m.vertex();
    let v8 = m.vertex();
    let v9 = m.vertex();

    m.face(&[v1, v2, v3]);
    m.face(&[v1, v4, v5]);
    m.face(&[v1, v6, v7]);
    m.face(&[v1, v8, v9]);

    m.face(&[v1, v3, v4]);
    m.face(&[v1, v5, v6]);
    m.face(&[v1, v7, v8]);
    m.face(&[v1, v9, v2]);

    m.face(&[v9, v8, v6, v5, v4, v3, v2]);

    m.check();
}

#[test]
fn mesh_2() {
    let mut m = Expected::new();
    let v1 = m.vertex();
    let v2 = m.vertex();
    let v3 = m.vertex();
    let v4 = m.vertex();
    let v5 = m.vertex();
    let v6 = m.vertex();
    let v7 = m.vertex();
    let v8 = m.vertex();

    m.face(&[v1, v2, v3]);
    m.face(&[v4, v5, v1]);
    m.face(&[v1, v6, v4]);
    m.face(&[v7, v8, v4]);

    m.check();
}
