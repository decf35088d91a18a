//! The in-memory graph model: nodes with unique identifiers, directed typed
//! edges kept in insertion order, and the two invariants the model enforces
//! at insertion time (identifier uniqueness, edge referential integrity).

use vstd::prelude::*;

verus! {

/// A vertex: a 64-bit identifier (unique within a graph) and a text label.
pub struct Node {
    pub id: u64,
    pub name: String,
}

/// A directed, typed relationship between two node identifiers. The endpoints
/// are stored as plain identifier values, not references to nodes.
pub struct Edge {
    pub from: u64,
    pub to: u64,
    pub kind: String,
}

/// Mathematical image of a [`Node`].
pub struct NodeView {
    pub id: u64,
    pub name: Seq<char>,
}

/// Mathematical image of an [`Edge`].
pub struct EdgeView {
    pub from: u64,
    pub to: u64,
    pub kind: Seq<char>,
}

/// Mathematical image of a [`Graph`]: the key-to-node mapping as a sequence
/// of pairs (keys unique when the graph is well formed) and the edges in
/// insertion order.
pub struct GraphView {
    pub nodes: Seq<(u64, NodeView)>,
    pub edges: Seq<EdgeView>,
}

impl View for Node {
    type V = NodeView;

    open spec fn view(&self) -> NodeView {
        NodeView { id: self.id, name: self.name@ }
    }
}

impl View for Edge {
    type V = EdgeView;

    open spec fn view(&self) -> EdgeView {
        EdgeView { from: self.from, to: self.to, kind: self.kind@ }
    }
}

/// The images of a sequence of key/node pairs.
pub open spec fn nodes_view_of(v: Seq<(u64, Node)>) -> Seq<(u64, NodeView)> {
    Seq::new(v.len(), |i: int| (v[i].0, v[i].1@))
}

/// The images of a sequence of edges.
pub open spec fn edges_view_of(v: Seq<Edge>) -> Seq<EdgeView> {
    Seq::new(v.len(), |i: int| v[i]@)
}

/// No key occurs twice in the sequence of key/node pairs.
pub open spec fn keys_unique(nodes: Seq<(u64, NodeView)>) -> bool {
    forall|i: int, j: int|
        0 <= i < j < nodes.len() ==> (#[trigger] nodes[i]).0 != (#[trigger] nodes[j]).0
}

impl GraphView {
    /// Some pair in the mapping has the given key.
    pub open spec fn has_node(self, id: u64) -> bool {
        exists|i: int| 0 <= i < self.nodes.len() && (#[trigger] self.nodes[i]).0 == id
    }

    /// The graph's one structural invariant: node keys are unique.
    pub open spec fn wf(self) -> bool {
        keys_unique(self.nodes)
    }
}

/// A failure of a graph mutation; the payload is the offending identifier.
#[derive(Debug, Clone, Copy, PartialEq, Eq, Structural)]
pub enum GraphError {
    /// `add_node` was given an identifier that is already present.
    DuplicateId(u64),
    /// `add_edge` was given an endpoint for which no node exists.
    MissingNode(u64),
}

/// The in-memory aggregate of all nodes and edges of one store instance.
pub struct Graph {
    nodes: Vec<(u64, Node)>,
    edges: Vec<Edge>,
}

impl View for Graph {
    type V = GraphView;

    closed spec fn view(&self) -> GraphView {
        GraphView { nodes: nodes_view_of(self.nodes@), edges: edges_view_of(self.edges@) }
    }
}

impl Graph {
    /// A graph with no nodes and no edges.
    pub fn new() -> (g: Graph)
        ensures
            g@.nodes.len() == 0,
            g@.edges.len() == 0,
            g@.wf(),
    {
        Graph { nodes: Vec::new(), edges: Vec::new() }
    }

    /// Whether a node with the given key is present.
    pub fn contains_node(&self, id: u64) -> (b: bool)
        ensures
            b == self@.has_node(id),
    {
        let mut i: usize = 0;
        while i < self.nodes.len()
            invariant
                i <= self.nodes.len(),
                forall|k: int| 0 <= k < i ==> (#[trigger] self@.nodes[k]).0 != id,
            decreases self.nodes.len() - i,
        {
            if self.nodes[i].0 == id {
                assert(self@.nodes[i as int].0 == id);
                return true;
            }
            i += 1;
        }
        false
    }

    /// Inserts a new node under its identifier. Fails with `DuplicateId`,
    /// leaving the graph unchanged, exactly when the identifier is already
    /// present.
    pub fn add_node(&mut self, id: u64, name: String) -> (r: Result<(), GraphError>)
        requires
            old(self)@.wf(),
        ensures
            final(self)@.wf(),
            r is Ok <==> !old(self)@.has_node(id),
            r is Ok ==> final(self)@.nodes == old(self)@.nodes.push((id, (NodeView { id, name: name@ })))
                && final(self)@.edges == old(self)@.edges,
            r is Err ==> final(self)@ == old(self)@
                && r == Err::<(), GraphError>(GraphError::DuplicateId(id)),
    {
        if self.contains_node(id) {
            return Err(GraphError::DuplicateId(id));
        }
        let ghost pre = self@;
        self.nodes.push((id, Node { id, name }));
        proof {
            assert(self@.nodes =~= pre.nodes.push((id, NodeView { id, name: name@ })));
            assert(self@.edges =~= pre.edges);
        }
        Ok(())
    }

    /// Appends a directed edge after validating both endpoints. `from` is
    /// checked first: if it is absent the failure names `from`, even when
    /// `to` is absent as well. Duplicate edges are permitted. On failure the
    /// graph is unchanged.
    pub fn add_edge(&mut self, from: u64, to: u64, kind: String) -> (r: Result<(), GraphError>)
        requires
            old(self)@.wf(),
        ensures
            final(self)@.wf(),
            r is Ok <==> old(self)@.has_node(from) && old(self)@.has_node(to),
            r is Ok ==> final(self)@.edges == old(self)@.edges.push(
                (EdgeView { from, to, kind: kind@ }),
            ) && final(self)@.nodes == old(self)@.nodes,
            !old(self)@.has_node(from) ==> r == Err::<(), GraphError>(GraphError::MissingNode(from))
                && final(self)@ == old(self)@,
            old(self)@.has_node(from) && !old(self)@.has_node(to) ==> r == Err::<(), GraphError>(
                GraphError::MissingNode(to),
            ) && final(self)@ == old(self)@,
    {
        if !self.contains_node(from) {
            return Err(GraphError::MissingNode(from));
        }
        if !self.contains_node(to) {
            return Err(GraphError::MissingNode(to));
        }
        let ghost pre = self@;
        self.edges.push(Edge { from, to, kind });
        proof {
            assert(self@.edges =~= pre.edges.push(EdgeView { from, to, kind: kind@ }));
            assert(self@.nodes =~= pre.nodes);
        }
        Ok(())
    }

    /// A snapshot of all key/node pairs, in the mapping's storage order.
    pub fn list_nodes(&self) -> (r: Vec<(u64, Node)>)
        ensures
            r@.len() == self@.nodes.len(),
            forall|i: int| 0 <= i < r@.len() ==> (#[trigger] r@[i]).0 == self@.nodes[i].0
                && r@[i].1@ == self@.nodes[i].1,
    {
        let mut r: Vec<(u64, Node)> = Vec::new();
        let mut i: usize = 0;
        while i < self.nodes.len()
            invariant
                i <= self.nodes.len(),
                r@.len() == i,
                forall|k: int| 0 <= k < i ==> (#[trigger] r@[k]).0 == self@.nodes[k].0
                    && r@[k].1@ == self@.nodes[k].1,
            decreases self.nodes.len() - i,
        {
            let key = self.nodes[i].0;
            let node = &self.nodes[i].1;
            r.push((key, Node { id: node.id, name: node.name.clone() }));
            i += 1;
        }
        r
    }

    /// A snapshot of all edges, in insertion order.
    pub fn list_edges(&self) -> (r: Vec<Edge>)
        ensures
            r@.len() == self@.edges.len(),
            forall|i: int| 0 <= i < r@.len() ==> (#[trigger] r@[i])@ == self@.edges[i],
    {
        let mut r: Vec<Edge> = Vec::new();
        let mut i: usize = 0;
        while i < self.edges.len()
            invariant
                i <= self.edges.len(),
                r@.len() == i,
                forall|k: int| 0 <= k < i ==> (#[trigger] r@[k])@ == self@.edges[k],
            decreases self.edges.len() - i,
        {
            let e = &self.edges[i];
            r.push(Edge { from: e.from, to: e.to, kind: e.kind.clone() });
            i += 1;
        }
        r
    }

    /// The number of nodes.
    pub fn len(&self) -> (n: usize)
        ensures
            n == self@.nodes.len(),
    {
        self.nodes.len()
    }

    /// The number of edges.
    pub fn edges_len(&self) -> (n: usize)
        ensures
            n == self@.edges.len(),
    {
        self.edges.len()
    }

    /// Whether the identifier-uniqueness invariant holds; true for every
    /// graph this library hands out.
    pub fn is_well_formed(&self) -> (b: bool)
        ensures
            b == self@.wf(),
    {
        let mut i: usize = 0;
        while i < self.nodes.len()
            invariant
                i <= self.nodes.len(),
                forall|p: int, q: int| 0 <= p < q < self.nodes@.len() && p < i
                    ==> (#[trigger] self@.nodes[p]).0 != (#[trigger] self@.nodes[q]).0,
            decreases self.nodes.len() - i,
        {
            let mut j: usize = i + 1;
            while j < self.nodes.len()
                invariant
                    i < j <= self.nodes.len(),
                    forall|q: int| i < q < j ==> (#[trigger] self@.nodes[q]).0 != self@.nodes[i as int].0,
                decreases self.nodes.len() - j,
            {
                if self.nodes[j].0 == self.nodes[i].0 {
                    assert(self@.nodes[j as int].0 == self@.nodes[i as int].0);
                    return false;
                }
                j += 1;
            }
            i += 1;
        }
        true
    }

    /// Rebuilds a graph from already-validated parts; used when a graph is
    /// reconstructed from its persisted form. Edges are stored as given and
    /// are not re-validated against the node set.
    pub(crate) fn from_parts(nodes: Vec<(u64, Node)>, edges: Vec<Edge>) -> (g: Graph)
        requires
            keys_unique(nodes_view_of(nodes@)),
        ensures
            g@.nodes == nodes_view_of(nodes@),
            g@.edges == edges_view_of(edges@),
            g@.wf(),
    {
        Graph { nodes, edges }
    }
}

impl Default for Graph {
    /// Same as [`Graph::new`].
    fn default() -> (g: Graph)
        ensures
            g@.nodes.len() == 0,
            g@.edges.len() == 0,
            g@.wf(),
    {
        Graph::new()
    }
}

} // verus!
