//! Trusted boundary to petgraph's directed graph.
//!
//! The transport network is held in a `petgraph::graph::DiGraph`. Verus sees
//! the graph only through the two content names `graph_nodes` and
//! `graph_edges` and the wrappers below, whose contracts state what
//! petgraph's source shows: nodes and edges are appended to dense index
//! ranges, and `edges` enumerates exactly the outgoing edges of a node.

use vstd::prelude::*;
use petgraph::graph::DiGraph;
use petgraph::visit::EdgeRef;
use crate::graph::TransportEdge;
use crate::graph::TransportNode;

verus! {

#[verifier::external_type_specification]
#[verifier::external_body]
#[verifier::reject_recursive_types(N)]
#[verifier::reject_recursive_types(E)]
#[verifier::reject_recursive_types(Ty)]
#[verifier::reject_recursive_types(Ix)]
pub struct ExGraph<N, E, Ty, Ix>(petgraph::graph::Graph<N, E, Ty, Ix>);

#[verifier::external_type_specification]
#[verifier::external_body]
pub struct ExDirected(petgraph::Directed);

/// The nodes a graph holds, in insertion order; node `i` of the graph is
/// `graph_nodes(g)[i]`.
pub uninterp spec fn graph_nodes(g: DiGraph<TransportNode, TransportEdge>) -> Seq<TransportNode>;

/// The edges a graph holds, in insertion order, as
/// (source node index, target node index, edge data).
pub uninterp spec fn graph_edges(g: DiGraph<TransportNode, TransportEdge>) -> Seq<
    (usize, usize, TransportEdge),
>;

/// Relies on petgraph's `Graph::new`: a fresh graph has no nodes and no
/// edges.
#[verifier::external_body]
pub(crate) fn pg_new() -> (g: DiGraph<TransportNode, TransportEdge>)
    ensures
        graph_nodes(g).len() == 0,
        graph_edges(g).len() == 0,
{
    DiGraph::new()
}

/// Relies on petgraph's `Graph::add_node`: the node is appended and its
/// index equals the prior node count. The index-limit panic cannot fire
/// under the precondition.
#[verifier::external_body]
pub(crate) fn pg_add_node(g: &mut DiGraph<TransportNode, TransportEdge>, n: TransportNode) -> (r:
    usize)
    requires
        graph_nodes(*old(g)).len() < 0xffff_ffff,
    ensures
        graph_nodes(*final(g)) == graph_nodes(*old(g)).push(n),
        graph_edges(*final(g)) == graph_edges(*old(g)),
        r == graph_nodes(*old(g)).len(),
{
    g.add_node(n).index()
}

/// Relies on petgraph's `Graph::add_edge`: the edge is appended with the
/// given endpoints. The out-of-bounds and index-limit panics cannot fire
/// under the preconditions.
#[verifier::external_body]
pub(crate) fn pg_add_edge(
    g: &mut DiGraph<TransportNode, TransportEdge>,
    a: usize,
    b: usize,
    e: TransportEdge,
)
    requires
        a < graph_nodes(*old(g)).len(),
        b < graph_nodes(*old(g)).len(),
        graph_edges(*old(g)).len() < 0xffff_ffff,
    ensures
        graph_edges(*final(g)) == graph_edges(*old(g)).push((a, b, e)),
        graph_nodes(*final(g)) == graph_nodes(*old(g)),
{
    g.add_edge(petgraph::graph::NodeIndex::new(a), petgraph::graph::NodeIndex::new(b), e);
}

/// Relies on petgraph's `Graph::node_count`: the number of nodes held.
#[verifier::external_body]
pub(crate) fn pg_node_count(g: &DiGraph<TransportNode, TransportEdge>) -> (r: usize)
    ensures
        r == graph_nodes(*g).len(),
{
    g.node_count()
}

/// Relies on petgraph's `Graph::edge_count`: the number of edges held.
#[verifier::external_body]
pub(crate) fn pg_edge_count(g: &DiGraph<TransportNode, TransportEdge>) -> (r: usize)
    ensures
        r == graph_edges(*g).len(),
{
    g.edge_count()
}

/// Relies on petgraph's `Graph::node_weight`: node `i` of the graph.
#[verifier::external_body]
pub(crate) fn pg_node_ref<'a>(g: &'a DiGraph<TransportNode, TransportEdge>, i: usize) -> (r:
    &'a TransportNode)
    requires
        i < graph_nodes(*g).len(),
    ensures
        *r == graph_nodes(*g)[i as int],
{
    g.node_weight(petgraph::graph::NodeIndex::new(i)).unwrap()
}

/// Relies on petgraph's `Graph::edge_weight`: the data of edge `eid`.
#[verifier::external_body]
pub(crate) fn pg_edge_weight<'a>(g: &'a DiGraph<TransportNode, TransportEdge>, eid: usize) -> (r:
    &'a TransportEdge)
    requires
        eid < graph_edges(*g).len(),
    ensures
        *r == graph_edges(*g)[eid as int].2,
{
    g.edge_weight(petgraph::graph::EdgeIndex::new(eid)).unwrap()
}

/// Relies on petgraph's `Graph::edges`: for a directed graph it walks
/// the out-edge list of `a` once, yielding exactly the edges whose
/// source is `a`, each with its target and its edge index, no index
/// twice.
#[verifier::external_body]
pub(crate) fn pg_out_edges(g: &DiGraph<TransportNode, TransportEdge>, a: usize) -> (r: Vec<
    (usize, usize),
>)
    requires
        a < graph_nodes(*g).len(),
    ensures
        forall|k: int|
            0 <= k < r@.len() ==> r@[k].1 < graph_edges(*g).len() && graph_edges(*g)[r@[k].1 as int].0
                == a && graph_edges(*g)[r@[k].1 as int].1 == r@[k].0,
        forall|j: int|
            0 <= j < graph_edges(*g).len() && graph_edges(*g)[j].0 == a ==> exists|k: int|
                0 <= k < r@.len() && r@[k].1 == j,
        forall|k1: int, k2: int| 0 <= k1 < k2 < r@.len() ==> r@[k1].1 != r@[k2].1,
{
    g.edges(petgraph::graph::NodeIndex::new(a)).map(
        |er| (er.target().index(), er.id().index()),
    ).collect()
}

} // verus!
