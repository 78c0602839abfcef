//! The in-memory graph: nodes with properties, and named relations between them.
use vstd::prelude::*;
use crate::strmap::StrMap;

verus! {

/// A node of the graph.
pub struct NodeData {
    pub id: String,
    pub label: Option<String>,
    pub properties: StrMap<String>,
}

/// An outgoing relation of a node.
pub struct EdgeData {
    pub target_id: String,
    pub relation_name: String,
}

/// The graph: nodes by id, and the outgoing relations of each source node.
pub struct GraphStore {
    pub nodes: StrMap<NodeData>,
    pub edges: StrMap<Vec<EdgeData>>,
}

/// The mathematical model of a [`NodeData`].
pub struct NodeView {
    pub id: Seq<char>,
    pub label: Option<Seq<char>>,
    pub properties: Map<Seq<char>, Seq<char>>,
}

/// The mathematical model of an [`EdgeData`].
pub struct EdgeView {
    pub target_id: Seq<char>,
    pub relation_name: Seq<char>,
}

/// The mathematical model of a [`GraphStore`].
pub struct GraphView {
    pub nodes: Map<Seq<char>, NodeView>,
    pub edges: Map<Seq<char>, Seq<EdgeView>>,
}

impl View for NodeData {
    type V = NodeView;

    open spec fn view(&self) -> NodeView {
        NodeView { id: self.id@, label: self.label.deep_view(), properties: self.properties@ }
    }
}

impl DeepView for NodeData {
    type V = NodeView;

    open spec fn deep_view(&self) -> NodeView {
        self@
    }
}

impl View for EdgeData {
    type V = EdgeView;

    open spec fn view(&self) -> EdgeView {
        EdgeView { target_id: self.target_id@, relation_name: self.relation_name@ }
    }
}

impl DeepView for EdgeData {
    type V = EdgeView;

    open spec fn deep_view(&self) -> EdgeView {
        self@
    }
}

impl View for GraphStore {
    type V = GraphView;

    open spec fn view(&self) -> GraphView {
        GraphView { nodes: self.nodes@, edges: self.edges@ }
    }
}

impl Clone for NodeData {
    fn clone(&self) -> (r: Self)
        ensures
            r@ == self@,
    {
        let label = match &self.label {
            Some(l) => Some(l.clone()),
            None => None,
        };
        NodeData { id: self.id.clone(), label, properties: self.properties.clone() }
    }
}

impl Clone for EdgeData {
    fn clone(&self) -> (r: Self)
        ensures
            r@ == self@,
    {
        EdgeData { target_id: self.target_id.clone(), relation_name: self.relation_name.clone() }
    }
}

/// The relations of `source` in `edges`, or none when it has no entry.
pub open spec fn outgoing(edges: Map<Seq<char>, Seq<EdgeView>>, source: Seq<char>) -> Seq<EdgeView> {
    if edges.contains_key(source) {
        edges[source]
    } else {
        Seq::empty()
    }
}

/// A node written under an id is what a read of that id gives back, and it is found.
pub proof fn law_node_read_after_write(
    g: GraphView,
    id: Seq<char>,
    label: Option<Seq<char>>,
    properties: Map<Seq<char>, Seq<char>>,
    other: Seq<char>,
)
    ensures
        ({
            let nodes = g.nodes.insert(id, NodeView { id, label, properties });
            &&& nodes.contains_key(id)
            &&& nodes[id] == NodeView { id, label, properties }
            &&& other != id ==> (nodes.contains_key(other) == g.nodes.contains_key(other)
                && (g.nodes.contains_key(other) ==> nodes[other] == g.nodes[other]))
        }),
{
}

/// A relation added from a source comes after the relations that source already had, which
/// stay in place; the relations of every other source are untouched.
pub proof fn law_edge_appended(g: GraphView, source: Seq<char>, e: EdgeView, other: Seq<char>)
    ensures
        ({
            let edges = g.edges.insert(source, outgoing(g.edges, source).push(e));
            &&& outgoing(edges, source).len() == outgoing(g.edges, source).len() + 1
            &&& outgoing(edges, source).last() == e
            &&& forall|i: int| 0 <= i < outgoing(g.edges, source).len()
                ==> #[trigger] outgoing(edges, source)[i] == outgoing(g.edges, source)[i]
            &&& other != source ==> outgoing(edges, other) == outgoing(g.edges, other)
        }),
{
}

impl GraphStore {
    /// An empty graph.
    pub fn new() -> (g: Self)
        ensures
            g@.nodes == Map::<Seq<char>, NodeView>::empty(),
            g@.edges == Map::<Seq<char>, Seq<EdgeView>>::empty(),
    {
        GraphStore { nodes: StrMap::new(), edges: StrMap::new() }
    }

    /// The node with id `id`, if any.
    pub fn get_node(&self, id: &str) -> (r: Option<&NodeData>)
        ensures
            match r {
                Some(n) => self@.nodes.contains_key(id@) && n@ == self@.nodes[id@],
                None => !self@.nodes.contains_key(id@),
            },
    {
        self.nodes.get(id)
    }

    /// The outgoing relations of `source_id`, if it has an entry.
    pub fn get_connections(&self, source_id: &str) -> (r: Option<&Vec<EdgeData>>)
        ensures
            match r {
                Some(es) => self@.edges.contains_key(source_id@) && es.deep_view() == self@.edges[source_id@],
                None => !self@.edges.contains_key(source_id@),
            },
    {
        self.edges.get(source_id)
    }

    /// Whether a node with id `id` exists.
    pub fn has_node(&self, id: &str) -> (r: bool)
        ensures
            r == self@.nodes.contains_key(id@),
    {
        self.nodes.contains_key(id)
    }

    /// Stores a node under `id`, replacing any node with that id; relations are untouched.
    pub fn add_node(&mut self, id: String, label: Option<String>, properties: StrMap<String>)
        ensures
            final(self)@.nodes == old(self)@.nodes.insert(
                id@,
                NodeView { id: id@, label: label.deep_view(), properties: properties@ },
            ),
            final(self)@.edges == old(self)@.edges,
    {
        let node = NodeData { id: id.clone(), label, properties };
        self.nodes.insert(id, node);
    }

    /// Appends a relation `source_id -[relation_name]-> target_id` after the relations that
    /// `source_id` already has; nodes are untouched, and neither end need exist.
    pub fn add_edge(&mut self, source_id: String, target_id: String, relation_name: String)
        ensures
            final(self)@.edges == old(self)@.edges.insert(
                source_id@,
                outgoing(old(self)@.edges, source_id@).push(
                    EdgeView { target_id: target_id@, relation_name: relation_name@ },
                ),
            ),
            final(self)@.nodes == old(self)@.nodes,
    {
        let edge = EdgeData { target_id, relation_name };
        let ghost ev = edge@;
        let mut list = match self.edges.remove(source_id.as_str()) {
            Some(list) => list,
            None => Vec::new(),
        };
        let ghost prev = list.deep_view();
        list.push(edge);
        proof {
            assert(list.deep_view() =~= prev.push(ev));
            assert(prev =~= outgoing(old(self)@.edges, source_id@));
        }
        self.edges.insert(source_id, list);
        proof {
            assert(self@.edges =~= old(self)@.edges.insert(source_id@, outgoing(old(self)@.edges, source_id@).push(ev)));
        }
    }
}

} // verus!
