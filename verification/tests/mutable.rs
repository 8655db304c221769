use half_edge_graph::{
    Data, EdgeFn, EdgesMut, FaceFn, FacesMut, HalfEdgeFn, HalfEdgeGraph, HalfEdgesMut, VertexFn,
    VertexHandle, VerticesMut,
};

#[derive(Default)]
struct Value {
    value: i32,
}

struct Values;

impl Data for Values {
    type Face = Value;
    type Edge = Value;
    type HalfEdge = Value;
    type Vertex = Value;
}

type Graph = HalfEdgeGraph<Values>;

fn triangle() -> (Graph, Vec<VertexHandle>) {
    let mut graph = Graph::new();
    let v: Vec<VertexHandle> = (0..3).map(|_| graph.new_vertex(Value::default())).collect();
    graph.new_face(&[v[0], v[1], v[2]], Value { value: 100 }).unwrap();
    (graph, v)
}

#[test]
fn mutable_access_through_views() {
    let mut graph = Graph::default();

    let v1 = graph.new_vertex(Default::default());
    let v2 = graph.new_vertex(Default::default());

    let e = graph.new_edge(v1, v2, Default::default()).unwrap();

    let mut vertex = graph.vertex_mut(v1).unwrap();
    let mut edge_iter = vertex.edges_mut();
    edge_iter.next().unwrap().data_mut().value = 5;

    vertex.vertices_mut().next().unwrap().data_mut().value = 10;

    assert_eq!(graph.vertex(v1).unwrap().data().value, 0);
    assert_eq!(graph.vertex(v2).unwrap().data().value, 10);
    assert_eq!(graph.edge(e).unwrap().data().value, 5);
}

#[test]
fn mutable_views_follow_the_links() {
    let (mut graph, v) = triangle();
    let h = graph.find_half_edge(v[0], v[1]).unwrap();
    let mut view = graph.half_edge_mut(h).unwrap();
    assert_eq!(view.handle(), h);
    view.data_mut().value = 1;
    view.next_mut().data_mut().value = 2;
    view.pair_mut().data_mut().value = 3;
    view.vertex_mut().data_mut().value = 4;
    view.edge_mut().data_mut().value = 5;
    view.face_mut().unwrap().data_mut().value = 6;
    assert!(view.pair().pair() == h);
    assert_eq!(view.data().value, 1);
    let next = view.as_next();
    assert_eq!(next.data().value, 2);
    let read = next.into_read();
    assert!(read.prev() == h);
    let next = graph.half_edge(h).unwrap().next().handle();
    let pair = graph.half_edge(h).unwrap().pair().handle();
    let f = graph.half_edge(h).unwrap().face().unwrap().handle();
    assert_eq!(graph.get_half_edge_data(h).unwrap().value, 1);
    assert_eq!(graph.get_half_edge_data(next).unwrap().value, 2);
    assert_eq!(graph.get_half_edge_data(pair).unwrap().value, 3);
    assert_eq!(graph.get_vertex_data(v[1]).unwrap().value, 4);
    assert_eq!(graph.edge(graph.find_edge(v[0], v[1]).unwrap()).unwrap().data().value, 5);
    assert_eq!(graph.get_face_data(f).unwrap().value, 6);
    assert!(graph.verify_invariants());
}

#[test]
fn mutable_traversals_reach_every_neighbour() {
    let (mut graph, v) = triangle();
    let f = graph.face_handles()[0];
    {
        let mut face = graph.face_mut(f).unwrap();
        let mut round = face.vertices_mut();
        let mut n = 0;
        while let Some(mut vertex) = round.next() {
            n += 1;
            vertex.data_mut().value = n;
        }
        assert_eq!(n, 3);
        let mut edges = face.edges_mut();
        while let Some(mut edge) = edges.next() {
            edge.data_mut().value += 7;
        }
        assert!(face.faces_mut().next().is_none());
        let mut rep = face.hedge_mut();
        rep.data_mut().value = -1;
    }
    assert_eq!(graph.get_vertex_data(v[1]).unwrap().value, 1);
    assert_eq!(graph.get_vertex_data(v[2]).unwrap().value, 2);
    assert_eq!(graph.get_vertex_data(v[0]).unwrap().value, 3);
    for edge in graph.iter_edges() {
        assert_eq!(edge.data().value, 7);
    }
    assert_eq!(graph.face(f).unwrap().hedge().data().value, -1);
    {
        let mut vertex = graph.vertex_mut(v[0]).unwrap();
        let mut out = vertex.out_half_edges_mut();
        let mut count = 0;
        while let Some(mut h) = out.next() {
            h.data_mut().value = 20;
            count += 1;
        }
        assert_eq!(count, 2);
        let mut into = vertex.in_half_edges_mut();
        while let Some(mut h) = into.next() {
            h.data_mut().value = 30;
        }
        let mut faces = vertex.faces_mut();
        faces.next().unwrap().data_mut().value = 40;
        assert!(faces.next().is_none());
        let mut rep = vertex.hedge_mut().unwrap();
        assert_eq!(rep.data().value, 20);
        rep.data_mut().value = 21;
    }
    let centre = graph.vertex(v[0]).unwrap();
    assert_eq!(centre.hedge().unwrap().data().value, 21);
    for h in centre.in_half_edges().to_vec() {
        assert_eq!(h.data().value, 30);
    }
    assert_eq!(graph.get_face_data(f).unwrap().value, 40);
    {
        let e = graph.find_edge(v[0], v[1]).unwrap();
        let mut edge = graph.edge_mut(e).unwrap();
        let mut faces = edge.faces_mut();
        faces.next().unwrap().data_mut().value = 50;
        assert!(faces.next().is_none());
        edge.hedge_mut().data_mut().value = 60;
        let h = edge.as_hedge();
        assert_eq!(h.data().value, 60);
    }
    assert_eq!(graph.get_face_data(f).unwrap().value, 50);
    assert!(graph.verify_invariants());
}

#[test]
fn mutable_iteration_over_the_whole_graph() {
    let (mut graph, v) = triangle();
    {
        let mut vertices = VerticesMut::new(&mut graph);
        let mut i = 0;
        while let Some(mut vertex) = vertices.next() {
            assert_eq!(vertex.handle(), v[i]);
            vertex.data_mut().value = 10 * (i as i32 + 1);
            i += 1;
        }
        assert_eq!(i, 3);
        assert!(vertices.next().is_none());
    }
    {
        let mut edges = EdgesMut::new(&mut graph);
        while let Some(mut edge) = edges.next() {
            edge.data_mut().value = 1;
        }
    }
    {
        let mut halves = HalfEdgesMut::new(&mut graph);
        let mut n = 0;
        while let Some(mut half) = halves.next() {
            half.data_mut().value = 2;
            n += 1;
        }
        assert_eq!(n, 6);
    }
    {
        let mut faces = FacesMut::new(&mut graph);
        faces.next().unwrap().data_mut().value += 1;
        assert!(faces.next().is_none());
    }
    {
        let mut again = graph.iter_vertices_mut();
        again.next().unwrap().data_mut().value += 1;
        let mut edges = graph.iter_edges_mut();
        edges.next().unwrap().data_mut().value += 1;
        let mut halves = graph.iter_half_edges_mut();
        halves.next().unwrap().data_mut().value += 1;
        let mut faces = graph.iter_faces_mut();
        faces.next().unwrap().data_mut().value += 1;
    }
    assert_eq!(graph.get_vertex_data(v[0]).unwrap().value, 11);
    assert_eq!(graph.get_vertex_data(v[1]).unwrap().value, 20);
    assert_eq!(graph.get_vertex_data(v[2]).unwrap().value, 30);
    let edges: Vec<i32> = graph.iter_edges().iter().map(|e| e.data().value).collect();
    assert_eq!(edges, vec![2, 1, 1]);
    let halves: Vec<i32> = graph.iter_half_edges().iter().map(|h| h.data().value).collect();
    assert_eq!(halves, vec![3, 2, 2, 2, 2, 2]);
    assert_eq!(graph.iter_faces()[0].data().value, 102);
    assert!(graph.verify_invariants());
}

#[test]
fn mutable_views_turn_into_read_views() {
    let (mut graph, v) = triangle();
    let e = graph.find_edge(v[0], v[1]).unwrap();
    let h = graph.find_half_edge(v[0], v[1]).unwrap();
    let f = graph.face_handles()[0];
    {
        let mut view = graph.vertex_mut(v[0]).unwrap();
        view.data_mut().value = 9;
        let read: VertexFn<'_, Values> = view.into();
        assert!(read == v[0]);
        assert_eq!(read.data().value, 9);
        assert_eq!(read.out_half_edges().to_vec().len(), 2);
    }
    {
        let read = EdgeFn::from(graph.edge_mut(e).unwrap());
        assert!(read == e);
        assert!(read.hedge() == h);
    }
    {
        let read = HalfEdgeFn::from(graph.half_edge_mut(h).unwrap());
        assert!(read.vertex() == v[1]);
    }
    {
        let read = FaceFn::from(graph.face_mut(f).unwrap());
        assert_eq!(read.data().value, 100);
        assert_eq!(read.vertices().to_handles(), vec![v[1], v[2], v[0]]);
    }
    {
        let view = graph.vertex_mut(v[1]).unwrap();
        let still = view.read();
        assert!(still.hedge().is_some());
    }
}
