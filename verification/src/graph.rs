//! The graph of relationships between entities, kept in a `petgraph` directed
//! graph: one node per entity name, one edge per relationship, labelled with
//! the relationship's kind.

use vstd::prelude::*;
use crate::keyed::{keyed_entries, keyed_get, keyed_insert, keyed_new, Keyed};
use crate::schema::{Relationship, RelationshipType};
use petgraph::graph::{Graph, NodeIndex};
use petgraph::Directed;

verus! {

#[verifier::external_type_specification]
#[verifier::external_body]
pub struct ExDirected(petgraph::Directed);

#[verifier::external_type_specification]
#[verifier::external_body]
#[verifier::reject_recursive_types(N)]
#[verifier::reject_recursive_types(E)]
#[verifier::reject_recursive_types(Ty)]
#[verifier::reject_recursive_types(Ix)]
pub struct ExGraph<N, E, Ty, Ix>(petgraph::graph::Graph<N, E, Ty, Ix>);

/// A directed graph with named nodes and labelled edges, indexed by `u32`.
pub type Digraph = Graph<String, String, Directed, u32>;

/// The node weights of a graph, by node index.
pub uninterp spec fn graph_nodes(g: Graph<String, String, Directed, u32>) -> Seq<Seq<char>>;

/// The edges of a graph, by edge index: source, target, weight.
pub uninterp spec fn graph_edges(g: Graph<String, String, Directed, u32>) -> Seq<(usize, usize, Seq<char>)>;

/// The most nodes or edges a `u32`-indexed graph takes: the largest index is
/// reserved as "none".
pub open spec fn graph_capacity() -> nat {
    0xFFFF_FFFF
}

/// An empty directed graph.
///
/// Trusted: `Graph::new` holds no nodes and no edges.
#[verifier::external_body]
fn graph_new() -> (res: Digraph)
    ensures
        graph_nodes(res) == Seq::<Seq<char>>::empty(),
        graph_edges(res) == Seq::<(usize, usize, Seq<char>)>::empty(),
{
    Graph::new()
}

/// Adds a node and gives its index.
///
/// Trusted: `Graph::add_node` appends the node, whose index is the number of
/// nodes before it; it panics only at the largest index, which `requires`
/// leaves out.
#[verifier::external_body]
fn graph_add_node(g: &mut Digraph, weight: String) -> (res: usize)
    requires
        graph_nodes(*old(g)).len() < graph_capacity(),
    ensures
        graph_nodes(*final(g)) == graph_nodes(*old(g)).push(weight@),
        graph_edges(*final(g)) == graph_edges(*old(g)),
        res == graph_nodes(*old(g)).len(),
{
    g.add_node(weight).index()
}

/// Adds an edge from node `a` to node `b`.
///
/// Trusted: `Graph::add_edge` appends the edge; it panics on a node that is
/// not there and at the largest edge index, which `requires` leaves out.
#[verifier::external_body]
fn graph_add_edge(g: &mut Digraph, a: usize, b: usize, weight: String)
    requires
        a < graph_nodes(*old(g)).len(),
        b < graph_nodes(*old(g)).len(),
        graph_edges(*old(g)).len() < graph_capacity(),
    ensures
        graph_nodes(*final(g)) == graph_nodes(*old(g)),
        graph_edges(*final(g)) == graph_edges(*old(g)).push((a, b, weight@)),
{
    g.add_edge(NodeIndex::new(a), NodeIndex::new(b), weight);
}

/// The label of a relationship kind on its edge: the kind's name.
pub open spec fn kind_label(t: RelationshipType) -> Seq<char> {
    match t {
        RelationshipType::Uses => "Uses"@,
        RelationshipType::Returns => "Returns"@,
        RelationshipType::Contains => "Contains"@,
        RelationshipType::Extends => "Extends"@,
    }
}

fn kind_label_of(t: &RelationshipType) -> (res: String)
    ensures
        res@ == kind_label(*t),
{
    match t {
        RelationshipType::Uses => String::from_str("Uses"),
        RelationshipType::Returns => String::from_str("Returns"),
        RelationshipType::Contains => String::from_str("Contains"),
        RelationshipType::Extends => String::from_str("Extends"),
    }
}

/// The graph of relationships: the nodes, one per name, and the edges.
pub type GraphModel = (Seq<Seq<char>>, Seq<(usize, usize, Seq<char>)>);

/// The node of a name: the one there already, else a new one when the graph
/// can take it.
pub open spec fn node_of(nodes: Seq<Seq<char>>, name: Seq<char>) -> Option<(Seq<Seq<char>>, usize)> {
    if exists|i: int| 0 <= i < nodes.len() && nodes[i] == name {
        let i = choose|i: int| 0 <= i < nodes.len() && nodes[i] == name;
        Some((nodes, i as usize))
    } else if nodes.len() < graph_capacity() {
        Some((nodes.push(name), nodes.len() as usize))
    } else {
        None
    }
}

/// One relationship added: the nodes of both ends, and an edge between them
/// labelled with the kind (when the graph can take them).
pub open spec fn with_relationship(g: GraphModel, from: Seq<char>, to: Seq<char>, kind: RelationshipType) -> GraphModel {
    let (nodes, edges) = g;
    match node_of(nodes, from) {
        None => g,
        Some((n1, a)) => match node_of(n1, to) {
            None => (n1, edges),
            Some((n2, b)) => if edges.len() < graph_capacity() {
                (n2, edges.push((a, b, kind_label(kind))))
            } else {
                (n2, edges)
            },
        },
    }
}

/// The relationships added one after another.
pub open spec fn with_relationships(g: GraphModel, rels: Seq<Relationship>) -> GraphModel
    decreases rels.len(),
{
    if rels.len() == 0 {
        g
    } else {
        let last = rels.last();
        with_relationship(with_relationships(g, rels.drop_last()), last.from@, last.to@, last.rel_type)
    }
}

/// Node names occur once each.
pub open spec fn names_distinct(nodes: Seq<Seq<char>>) -> bool {
    forall|i: int, j: int| 0 <= i < j < nodes.len() ==> nodes[i] != nodes[j]
}

/// The graph of relationships between entities, with the node of each name.
pub struct RelationGraph {
    graph: Digraph,
    nodes: Keyed,
}

impl RelationGraph {
    #[verifier::type_invariant]
    spec fn wf(&self) -> bool {
        let nodes = graph_nodes(self.graph);
        let keys = keyed_entries(self.nodes);
        &&& keys.len() == nodes.len()
        &&& forall|i: int| 0 <= i < keys.len() ==> (#[trigger] keys[i]) == (nodes[i], i as usize)
        &&& names_distinct(nodes)
        &&& forall|i: int| 0 <= i < graph_edges(self.graph).len() ==>
                (#[trigger] graph_edges(self.graph)[i]).0 < nodes.len() && graph_edges(self.graph)[i].1 < nodes.len()
    }

    /// The graph as the model sees it.
    pub closed spec fn model(&self) -> GraphModel {
        (graph_nodes(self.graph), graph_edges(self.graph))
    }

    /// An empty graph.
    pub fn new() -> (res: Self)
        ensures
            res.model() == (Seq::<Seq<char>>::empty(), Seq::<(usize, usize, Seq<char>)>::empty()),
    {
        RelationGraph { graph: graph_new(), nodes: keyed_new() }
    }

    /// The node of a name, made when it is not there and the graph has room.
    fn node_for(&mut self, name: &str) -> (res: Option<usize>)
        ensures
            match node_of(old(self).model().0, name@) {
                Some((nodes, i)) => res == Some(i) && final(self).model() == (nodes, old(self).model().1),
                None => res is None && final(self).model() == old(self).model(),
            },
    {
        proof {
            use_type_invariant(&*self);
        }
        let ghost nodes = graph_nodes(self.graph);
        let ghost keys = keyed_entries(self.nodes);
        proof {
            crate::keyed::lemma_key_place(keys, name@);
        }
        match keyed_get(&self.nodes, name) {
            Some(i) => {
                proof {
                    let p = crate::keyed::key_place(keys, name@).unwrap();
                    assert(keys[p] == (nodes[p], p as usize));
                    assert(nodes[p] == name@);
                    let c = choose|k: int| 0 <= k < nodes.len() && nodes[k] == name@;
                    assert(nodes[c] == name@);
                    if c != p {
                        assert(nodes[c] != nodes[p]) by {
                            if c < p { assert(names_distinct(nodes)); } else { assert(names_distinct(nodes)); }
                        }
                    }
                }
                Some(i)
            },
            None => {
                proof {
                    assert forall|k: int| 0 <= k < nodes.len() implies nodes[k] != name@ by {
                        assert(keys[k] == (nodes[k], k as usize));
                    }
                }
                if graph_node_count(&self.graph) >= 0xFFFF_FFFF {
                    return None;
                }
                let mut taken = RelationGraph::new();
                std::mem::swap(&mut taken, self);
                proof {
                    use_type_invariant(&taken);
                }
                let RelationGraph { mut graph, nodes: mut map } = taken;
                let i = graph_add_node(&mut graph, String::from_str(name));
                keyed_insert(&mut map, String::from_str(name), i);
                proof {
                    let k2 = keyed_entries(map);
                    assert(k2 == keys.push((name@, i)));
                    let n2 = graph_nodes(graph);
                    assert forall|a: int| 0 <= a < k2.len() implies (#[trigger] k2[a]) == (n2[a], a as usize) by {
                        if a < keys.len() {
                            assert(k2[a] == keys[a]);
                        }
                    }
                    assert forall|a: int, b: int| 0 <= a < b < n2.len() implies n2[a] != n2[b] by {
                        if b < nodes.len() {
                            assert(names_distinct(nodes));
                        }
                    }
                }
                *self = RelationGraph { graph, nodes: map };
                Some(i)
            },
        }
    }

    /// Adds the relationships of a document: the nodes of their ends and an
    /// edge for each.
    pub fn add_relationships(&mut self, rels: &[Relationship])
        ensures
            final(self).model() == with_relationships(old(self).model(), rels@),
    {
        let mut k: usize = 0;
        assert(rels@.take(0) =~= Seq::<Relationship>::empty());
        while k < rels.len()
            invariant
                0 <= k <= rels@.len(),
                self.model() == with_relationships(old(self).model(), rels@.take(k as int)),
            decreases rels@.len() - k,
        {
            assert(rels@.take(k + 1).drop_last() =~= rels@.take(k as int));
            assert(rels@.take(k + 1).last() == rels@[k as int]);
            let rel = &rels[k];
            match self.node_for(rel.from.as_str()) {
                None => {},
                Some(a) => match self.node_for(rel.to.as_str()) {
                    None => {},
                    Some(b) => {
                        proof {
                            use_type_invariant(&*self);
                        }
                        if graph_edge_count(&self.graph) < 0xFFFF_FFFF {
                            let label = kind_label_of(&rel.rel_type);
                            self.add_edge(a, b, label);
                        }
                    },
                },
            }
            k = k + 1;
        }
        assert(rels@.take(rels@.len() as int) =~= rels@);
    }

    fn add_edge(&mut self, a: usize, b: usize, label: String)
        requires
            a < old(self).model().0.len(),
            b < old(self).model().0.len(),
            old(self).model().1.len() < graph_capacity(),
        ensures
            final(self).model() == (old(self).model().0, old(self).model().1.push((a, b, label@))),
    {
        proof {
            use_type_invariant(&*self);
        }
        let mut taken = RelationGraph::new();
        std::mem::swap(&mut taken, self);
        proof {
            use_type_invariant(&taken);
        }
        let RelationGraph { mut graph, nodes } = taken;
        let ghost e0 = graph_edges(graph);
        graph_add_edge(&mut graph, a, b, label);
        proof {
            let e = graph_edges(graph);
            assert forall|i: int| 0 <= i < e.len() implies (#[trigger] e[i]).0 < graph_nodes(graph).len() && e[i].1 < graph_nodes(graph).len() by {
                if i < e0.len() {
                    assert(e[i] == e0[i]);
                }
            }
        }
        *self = RelationGraph { graph, nodes };
    }
}

/// The number of nodes.
///
/// Trusted: `Graph::node_count`.
#[verifier::external_body]
fn graph_node_count(g: &Digraph) -> (n: usize)
    ensures
        n == graph_nodes(*g).len(),
{
    g.node_count()
}

/// The number of edges.
///
/// Trusted: `Graph::edge_count`.
#[verifier::external_body]
fn graph_edge_count(g: &Digraph) -> (n: usize)
    ensures
        n == graph_edges(*g).len(),
{
    g.edge_count()
}

proof fn lemma_node_of(nodes: Seq<Seq<char>>, name: Seq<char>)
    requires
        names_distinct(nodes),
        nodes.len() <= graph_capacity(),
    ensures
        node_of(nodes, name) matches Some((n, i)) ==> names_distinct(n) && 0 <= i < n.len() && n[i as int] == name
            && n.len() <= graph_capacity(),
{
    if exists|i: int| 0 <= i < nodes.len() && nodes[i] == name {
        let i = choose|i: int| 0 <= i < nodes.len() && nodes[i] == name;
        assert((i as usize) as int == i);
    }
    if !(exists|i: int| 0 <= i < nodes.len() && nodes[i] == name) && nodes.len() < graph_capacity() {
        let n = nodes.push(name);
        assert forall|a: int, b: int| 0 <= a < b < n.len() implies n[a] != n[b] by {
            if b < nodes.len() {
                assert(nodes[a] != nodes[b]);
            } else {
                assert(n[a] == nodes[a]);
            }
        }
    }
}

/// However many relationships name an entity, it has one node: the nodes of
/// the graph never share a name, and each relationship adds at most one edge.
pub proof fn one_node_per_name(g: GraphModel, rels: Seq<Relationship>)
    requires
        names_distinct(g.0),
        g.0.len() <= graph_capacity(),
    ensures
        names_distinct(with_relationships(g, rels).0),
        with_relationships(g, rels).0.len() <= graph_capacity(),
        with_relationships(g, rels).1.len() <= g.1.len() + rels.len(),
    decreases rels.len(),
{
    if rels.len() > 0 {
        one_node_per_name(g, rels.drop_last());
        let prev = with_relationships(g, rels.drop_last());
        let last = rels.last();
        lemma_node_of(prev.0, last.from@);
        if let Some((n1, _)) = node_of(prev.0, last.from@) {
            lemma_node_of(n1, last.to@);
        }
    }
}

} // verus!
