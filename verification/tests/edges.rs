use minigraph::graph::{Graph, GraphError};

#[test]
fn agrega_y_lista_relaciones() {
    let mut g = Graph::new();
    g.add_node(1, "A".to_string()).unwrap();
    g.add_node(2, "B".to_string()).unwrap();
    g.add_node(3, "C".to_string()).unwrap();

    g.add_edge(1, 2, "amigo".to_string()).unwrap();
    g.add_edge(1, 3, "primo".to_string()).unwrap();

    let edges = g.list_edges();
    assert_eq!(edges.len(), 2);
    assert_eq!(edges[0].from, 1);
    assert_eq!(edges[0].to, 2);
    assert_eq!(edges[0].kind, "amigo");
    assert_eq!(edges[1].from, 1);
    assert_eq!(edges[1].to, 3);
    assert_eq!(edges[1].kind, "primo");
}

#[test]
fn falla_si_nodo_no_existe_en_add_edge() {
    let mut g = Graph::new();
    g.add_node(1, "A".to_string()).unwrap();

    let err = g.add_edge(1, 999, "x".to_string()).unwrap_err();
    match err {
        GraphError::MissingNode(id) => assert_eq!(id, 999),
        _ => panic!("se esperaba un MissingNode(999)"),
    }
}

#[test]
fn duplicate_id_fails_and_leaves_graph_unchanged() {
    let mut g = Graph::new();
    g.add_node(7, "first".to_string()).unwrap();
    let err = g.add_node(7, "second".to_string()).unwrap_err();
    match err {
        GraphError::DuplicateId(id) => assert_eq!(id, 7),
        _ => panic!("se esperaba un DuplicateId(7)"),
    }
    assert_eq!(g.len(), 1);
    let nodes = g.list_nodes();
    assert_eq!(nodes[0].0, 7);
    assert_eq!(nodes[0].1.name, "first");
}

#[test]
fn missing_from_is_reported_before_missing_to() {
    let mut g = Graph::new();
    let err = g.add_edge(5, 6, "x".to_string()).unwrap_err();
    match err {
        GraphError::MissingNode(id) => assert_eq!(id, 5),
        _ => panic!("se esperaba un MissingNode(5)"),
    }
    g.add_node(5, "a".to_string()).unwrap();
    let err = g.add_edge(5, 6, "x".to_string()).unwrap_err();
    match err {
        GraphError::MissingNode(id) => assert_eq!(id, 6),
        _ => panic!("se esperaba un MissingNode(6)"),
    }
    assert_eq!(g.edges_len(), 0);
}

#[test]
fn duplicate_edges_are_permitted_in_insertion_order() {
    let mut g = Graph::new();
    g.add_node(1, "a".to_string()).unwrap();
    g.add_node(2, "b".to_string()).unwrap();
    g.add_edge(1, 2, "x".to_string()).unwrap();
    g.add_edge(2, 1, "y".to_string()).unwrap();
    g.add_edge(1, 2, "x".to_string()).unwrap();
    let edges = g.list_edges();
    assert_eq!(edges.len(), 3);
    assert_eq!((edges[0].from, edges[0].to), (1, 2));
    assert_eq!((edges[1].from, edges[1].to), (2, 1));
    assert_eq!((edges[2].from, edges[2].to), (1, 2));
    assert_eq!(edges[2].kind, "x");
}

#[test]
fn scenario_three_nodes_two_edges_then_missing() {
    let mut g = Graph::new();
    g.add_node(1, "A".to_string()).unwrap();
    g.add_node(2, "B".to_string()).unwrap();
    g.add_node(3, "C".to_string()).unwrap();
    g.add_edge(1, 2, "amigo".to_string()).unwrap();
    g.add_edge(1, 3, "primo".to_string()).unwrap();
    let edges = g.list_edges();
    assert_eq!(edges.len(), 2);
    assert_eq!(
        (edges[0].from, edges[0].to, edges[0].kind.as_str()),
        (1, 2, "amigo"),
    );
    assert_eq!(
        (edges[1].from, edges[1].to, edges[1].kind.as_str()),
        (1, 3, "primo"),
    );
    match g.add_edge(1, 999, "x".to_string()).unwrap_err() {
        GraphError::MissingNode(id) => assert_eq!(id, 999),
        _ => panic!("se esperaba un MissingNode(999)"),
    }
}
