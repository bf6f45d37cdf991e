//! The directed multigraph that backs the accumulator: `petgraph`'s `Graph`,
//! with account names as node weights and amounts as edge weights.
//!
//! Nothing in this file is proved. Each function states what the `petgraph`
//! source shows of the one method it calls; node and edge indices cross the
//! boundary as `usize`.

use vstd::prelude::*;

verus! {

/// `petgraph::graph::Graph`, taken as it is: what a graph holds is known
/// only through `graph_nodes` and `graph_edges`.
#[verifier::external_type_specification]
#[verifier::external_body]
#[verifier::reject_recursive_types(N)]
#[verifier::reject_recursive_types(E)]
#[verifier::reject_recursive_types(Ty)]
#[verifier::reject_recursive_types(Ix)]
pub struct ExGraph<N, E, Ty, Ix>(petgraph::graph::Graph<N, E, Ty, Ix>);

/// `petgraph::Directed`, the marker of graphs with directed edges.
#[verifier::external_type_specification]
#[verifier::external_body]
pub struct ExDirected(petgraph::Directed);

/// A directed graph of accounts, with one edge per transfer.
pub type TransferGraph = petgraph::graph::Graph<String, u64, petgraph::Directed, u32>;

/// The node weights of a graph, by node index.
pub uninterp spec fn graph_nodes(g: TransferGraph) -> Seq<Seq<char>>;

/// The edges of a graph, by edge index: source node, target node and weight.
pub uninterp spec fn graph_edges(g: TransferGraph) -> Seq<(nat, nat, u64)>;

/// `Graph::new`: a graph without nodes or edges.
#[verifier::external_body]
pub(crate) fn graph_new() -> (g: TransferGraph)
    ensures
        graph_nodes(g) == Seq::<Seq<char>>::empty(),
        graph_edges(g) == Seq::<(nat, nat, u64)>::empty(),
{
    petgraph::graph::Graph::new()
}

/// `Graph::add_node`: appends a node and returns its index, the number of
/// nodes before the call. It panics once the index type is exhausted, which
/// the precondition rules out.
#[verifier::external_body]
pub(crate) fn graph_add_node(g: &mut TransferGraph, weight: String) -> (index: usize)
    requires
        graph_nodes(*old(g)).len() < u32::MAX,
    ensures
        graph_nodes(*final(g)) == graph_nodes(*old(g)).push(weight@),
        graph_edges(*final(g)) == graph_edges(*old(g)),
        index == graph_nodes(*old(g)).len(),
{
    g.add_node(weight).index()
}

/// `Graph::add_edge`: appends an edge from `source` to `target` and returns
/// its index, the number of edges before the call; parallel edges are kept.
/// It panics on a node that does not exist and once the index type is
/// exhausted, which the preconditions rule out.
#[verifier::external_body]
pub(crate) fn graph_add_edge(g: &mut TransferGraph, source: usize, target: usize, weight: u64) -> (index: usize)
    requires
        source < graph_nodes(*old(g)).len(),
        target < graph_nodes(*old(g)).len(),
        graph_edges(*old(g)).len() < u32::MAX,
    ensures
        graph_nodes(*final(g)) == graph_nodes(*old(g)),
        graph_edges(*final(g)) == graph_edges(*old(g)).push((source as nat, target as nat, weight)),
        index == graph_edges(*old(g)).len(),
{
    let source = petgraph::graph::NodeIndex::new(source);
    let target = petgraph::graph::NodeIndex::new(target);
    g.add_edge(source, target, weight).index()
}

/// `Graph::node_count`: the number of nodes.
#[verifier::external_body]
pub(crate) fn graph_node_count(g: &TransferGraph) -> (count: usize)
    ensures
        count == graph_nodes(*g).len(),
{
    g.node_count()
}

/// `Graph::edge_count`: the number of edges.
#[verifier::external_body]
pub(crate) fn graph_edge_count(g: &TransferGraph) -> (count: usize)
    ensures
        count == graph_edges(*g).len(),
{
    g.edge_count()
}

/// `Graph::node_indices`: the indices of the nodes, from zero upwards.
#[verifier::external_body]
pub(crate) fn graph_node_indices(g: &TransferGraph) -> (indices: Vec<usize>)
    ensures
        indices@ == Seq::new(graph_nodes(*g).len(), |i: int| i as usize),
{
    g.node_indices().map(|node| node.index()).collect()
}

/// `Graph::edge_indices`: the indices of the edges, from zero upwards.
#[verifier::external_body]
pub(crate) fn graph_edge_indices(g: &TransferGraph) -> (indices: Vec<usize>)
    ensures
        indices@ == Seq::new(graph_edges(*g).len(), |i: int| i as usize),
{
    g.edge_indices().map(|edge| edge.index()).collect()
}

/// `Graph::edge_endpoints`: the source and the target of an edge, or nothing
/// where the graph has no edge of that index. The index is held to the range
/// of the graph's index type, beyond which the conversion would wrap.
#[verifier::external_body]
pub(crate) fn graph_edge_endpoints(g: &TransferGraph, edge: usize) -> (ends: Option<(usize, usize)>)
    requires
        edge <= u32::MAX,
    ensures
        match ends {
            Some((source, target)) => {
                &&& edge < graph_edges(*g).len()
                &&& source == graph_edges(*g)[edge as int].0
                &&& target == graph_edges(*g)[edge as int].1
            },
            None => edge >= graph_edges(*g).len(),
        },
{
    match g.edge_endpoints(petgraph::graph::EdgeIndex::new(edge)) {
        Some((source, target)) => Some((source.index(), target.index())),
        None => None,
    }
}

/// Indexing a graph by a node: the weight of that node. It panics on a node
/// that does not exist, which the precondition rules out.
#[verifier::external_body]
pub(crate) fn graph_node_weight(g: &TransferGraph, node: usize) -> (weight: &String)
    requires
        node < graph_nodes(*g).len(),
    ensures
        weight@ == graph_nodes(*g)[node as int],
{
    &g[petgraph::graph::NodeIndex::new(node)]
}

/// Indexing a graph by an edge: the weight of that edge. It panics on an
/// edge that does not exist, which the precondition rules out.
#[verifier::external_body]
pub(crate) fn graph_edge_weight(g: &TransferGraph, edge: usize) -> (weight: u64)
    requires
        edge < graph_edges(*g).len(),
    ensures
        weight == graph_edges(*g)[edge as int].2,
{
    g[petgraph::graph::EdgeIndex::new(edge)]
}

} // verus!
