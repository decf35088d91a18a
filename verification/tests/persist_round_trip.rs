use minigraph::graph::Graph;
use minigraph::store::GraphStore;

#[test]
fn persist_round_trip() {
    let store = GraphStore::new(".minigraph/graph.json".to_string());

    let mut g: Graph = store.load_from_contents(None).unwrap();
    assert_eq!(g.list_nodes().len(), 0);

    g.add_node(1, "Alice".to_string()).unwrap();
    let saved = store.save_to_string(&g);

    let g2 = store.load_from_contents(Some(&saved)).unwrap();
    let mut items = g2.list_nodes();
    items.sort_by_key(|(id, _)| *id);

    assert_eq!(items.len(), 1);
    assert_eq!(items[0].0, 1);
    assert_eq!(items[0].1.name, "Alice");
    assert_eq!(g2.edges_len(), 0);
}

#[test]
fn save_of_reloaded_graph_is_identical() {
    let store = GraphStore::new(".minigraph/graph.json".to_string());
    let mut g = Graph::new();
    g.add_node(1, "Alice".to_string()).unwrap();
    g.add_node(2, "Bob \"el grande\"\n".to_string()).unwrap();
    g.add_edge(2, 1, "amigo".to_string()).unwrap();
    let first = store.save_to_string(&g);
    let reloaded = store.load_from_contents(Some(&first)).unwrap();
    let second = store.save_to_string(&reloaded);
    assert_eq!(first, second);
}
