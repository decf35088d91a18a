use minigraph::codec::encode_graph;
use minigraph::graph::Graph;
use minigraph::parse::decode_graph;
use minigraph::store::{GraphStore, LoadError};

#[test]
fn exact_document_format() {
    let mut g = Graph::new();
    g.add_node(1, "Alice".to_string()).unwrap();
    g.add_node(2, "Bob".to_string()).unwrap();
    g.add_edge(1, 2, "amigo".to_string()).unwrap();
    let expected = "{\n \"nodes\": {\n  \"1\": {\n   \"id\": 1,\n   \"name\": \"Alice\"\n  },\n  \"2\": {\n   \"id\": 2,\n   \"name\": \"Bob\"\n  }\n },\n \"edges\": [\n  {\n   \"from\": 1,\n   \"to\": 2,\n   \"kind\": \"amigo\"\n  }\n ]\n}";
    assert_eq!(encode_graph(&g), expected);
}

#[test]
fn exact_empty_document_format() {
    let g = Graph::new();
    assert_eq!(encode_graph(&g), "{\n \"nodes\": {},\n \"edges\": []\n}");
}

#[test]
fn missing_edges_member_defaults_to_empty() {
    let g = decode_graph("{\"nodes\": {}}").unwrap();
    assert_eq!(g.len(), 0);
    assert_eq!(g.edges_len(), 0);
}

#[test]
fn empty_object_is_the_empty_graph() {
    let g = decode_graph("{}").unwrap();
    assert_eq!(g.len(), 0);
    assert_eq!(g.edges_len(), 0);
}

#[test]
fn missing_file_gives_empty_graph() {
    let store = GraphStore::new("nowhere/graph.json".to_string());
    let g = store.load_from_contents(None).unwrap();
    assert_eq!(g.len(), 0);
    assert_eq!(g.edges_len(), 0);
}

#[test]
fn malformed_document_names_the_path() {
    let store = GraphStore::new("x/graph.json".to_string());
    match store.load_from_contents(Some("{\"nodes\"")) {
        Err(LoadError::Malformed { path }) => assert_eq!(path, "x/graph.json"),
        _ => panic!("se esperaba un LoadError::Malformed"),
    }
}

#[test]
fn escaped_names_round_trip() {
    let mut g = Graph::new();
    let name = "say \"hi\"\\ \n\t\r\u{8}\u{c}\u{1}\u{1f} é 😀".to_string();
    g.add_node(1, name.clone()).unwrap();
    let doc = encode_graph(&g);
    let g2 = decode_graph(&doc).unwrap();
    let nodes = g2.list_nodes();
    assert_eq!(nodes.len(), 1);
    assert_eq!(nodes[0].1.name, name);
}

#[test]
fn control_characters_are_escaped_numerically() {
    let mut g = Graph::new();
    g.add_node(1, "\u{1f}".to_string()).unwrap();
    let doc = encode_graph(&g);
    assert!(doc.contains("\\u001f"));
}

#[test]
fn unicode_escapes_decode() {
    let doc = "{\"nodes\": {\"1\": {\"id\": 1, \"name\": \"\\u0041\\u00e9\\t\"}}}";
    let g = decode_graph(doc).unwrap();
    let nodes = g.list_nodes();
    assert_eq!(nodes[0].1.name, "Aé\t");
}

#[test]
fn member_order_is_free() {
    let doc = "{ \"edges\": [ {\"kind\": \"k\", \"to\": 2, \"from\": 1} ], \"nodes\": { \"1\": {\"name\": \"n\", \"id\": 1} } }";
    let g = decode_graph(doc).unwrap();
    assert_eq!(g.len(), 1);
    assert_eq!(g.edges_len(), 1);
    let edges = g.list_edges();
    assert_eq!((edges[0].from, edges[0].to, edges[0].kind.as_str()), (1, 2, "k"));
}

#[test]
fn whitespace_is_tolerated() {
    let doc = "\t{\r\n\"nodes\"\n:\n{\n\"5\"\t: {\"id\":5,\"name\":\"x\"}\n}\n}\n";
    let g = decode_graph(doc).unwrap();
    assert_eq!(g.len(), 1);
    let nodes = g.list_nodes();
    assert_eq!(nodes[0].0, 5);
}

#[test]
fn largest_id_round_trips() {
    let mut g = Graph::new();
    g.add_node(u64::MAX, "m".to_string()).unwrap();
    let doc = encode_graph(&g);
    assert!(doc.contains("18446744073709551615"));
    let g2 = decode_graph(&doc).unwrap();
    let nodes = g2.list_nodes();
    assert_eq!(nodes[0].0, u64::MAX);
    assert_eq!(nodes[0].1.id, u64::MAX);
}

#[test]
fn number_beyond_u64_is_malformed() {
    let doc = "{\"nodes\": {\"1\": {\"id\": 18446744073709551616, \"name\": \"x\"}}}";
    assert!(decode_graph(doc).is_none());
}

#[test]
fn duplicate_node_key_is_rejected() {
    let doc = "{\"nodes\": {\"1\": {\"id\": 1, \"name\": \"a\"}, \"1\": {\"id\": 1, \"name\": \"b\"}}}";
    assert!(decode_graph(doc).is_none());
}

#[test]
fn dangling_edges_in_a_document_still_load() {
    let doc = "{\"edges\": [{\"from\": 1, \"to\": 2, \"kind\": \"x\"}]}";
    let g = decode_graph(doc).unwrap();
    assert_eq!(g.len(), 0);
    assert_eq!(g.edges_len(), 1);
}

#[test]
fn truncated_and_broken_documents_are_malformed() {
    assert!(decode_graph("").is_none());
    assert!(decode_graph("{").is_none());
    assert!(decode_graph("{\"nodes\": {}").is_none());
    assert!(decode_graph("{\"nodes\": {}} trailing").is_none());
    assert!(decode_graph("{\"nodes\": {\"a\": {\"id\": 1, \"name\": \"x\"}}}").is_none());
    assert!(decode_graph("{\"nodes\": {\"1\": {\"id\": 1}}}").is_none());
    assert!(decode_graph("{\"edges\": [{\"from\": 1, \"to\": 2}]}").is_none());
    assert!(decode_graph("{\"nodes\": {\"01\": {\"id\": 1, \"name\": \"x\"}}}").is_none());
}
