//! The graph that carries states and transitions: the linked-list graph of
//! the `rs_graph` crate, seen through what is claimed of it here.
//!
//! Nodes and edges are known by their ids, which the graph hands out in the
//! order of creation, starting at 0. What the graph holds is the sequence of
//! its edges, each the pair of the ids of the two nodes it was added between.

use vstd::prelude::*;
use rs_graph::linkedlistgraph::{LinkedListGraph, LinkedListGraphBuilder};
use rs_graph::traits::{Directed, DirectedEdge, IndexGraph};
use rs_graph::{Buildable, Builder};

verus! {

/// `rs_graph::linkedlistgraph::LinkedListGraph`, of which nothing is seen
/// here but what the functions below say.
#[verifier::external_type_specification]
#[verifier::external_body]
#[verifier::reject_recursive_types(ID)]
#[verifier::reject_recursive_types(N)]
#[verifier::reject_recursive_types(E)]
pub struct ExLinkedListGraph<ID, N, E>(LinkedListGraph<ID, N, E>);

/// `rs_graph::linkedlistgraph::LinkedListGraphBuilder`, with which such a
/// graph is made.
#[verifier::external_type_specification]
#[verifier::external_body]
#[verifier::reject_recursive_types(ID)]
#[verifier::reject_recursive_types(N)]
#[verifier::reject_recursive_types(E)]
pub struct ExLinkedListGraphBuilder<ID, N, E>(LinkedListGraphBuilder<ID, N, E>);

/// The edges added to a builder so far, in the order of `add_edge`: edge `i`
/// is the pair `(u, v)` of the ids of the nodes it was added between.
pub uninterp spec fn builder_arcs(b: LinkedListGraphBuilder<usize, (), ()>) -> Seq<(usize, usize)>;

/// The number of nodes added to a builder so far.
pub uninterp spec fn builder_nodes(b: LinkedListGraphBuilder<usize, (), ()>) -> nat;

/// The edges of a graph, as its builder held them.
pub uninterp spec fn graph_arcs(g: LinkedListGraph<usize, (), ()>) -> Seq<(usize, usize)>;

/// The number of nodes of a graph.
pub uninterp spec fn graph_nodes(g: LinkedListGraph<usize, (), ()>) -> nat;

/// The edges that leave `u`, newest first, each with the mark `false`.
pub open spec fn arcs_out(arcs: Seq<(usize, usize)>, u: usize) -> Seq<(usize, bool)>
    decreases arcs.len(),
{
    if arcs.len() == 0 {
        Seq::empty()
    } else {
        let rest = arcs_out(arcs.drop_last(), u);
        if arcs.last().0 == u {
            seq![((arcs.len() - 1) as usize, false)] + rest
        } else {
            rest
        }
    }
}

/// The edges that enter `u`, newest first, each with the mark `true`.
pub open spec fn arcs_in(arcs: Seq<(usize, usize)>, u: usize) -> Seq<(usize, bool)>
    decreases arcs.len(),
{
    if arcs.len() == 0 {
        Seq::empty()
    } else {
        let rest = arcs_in(arcs.drop_last(), u);
        if arcs.last().1 == u {
            seq![((arcs.len() - 1) as usize, true)] + rest
        } else {
            rest
        }
    }
}

/// The edges at `u` in the order in which the graph walks them: those that
/// leave `u`, then those that enter it, the newest first in each group.
pub open spec fn incident(arcs: Seq<(usize, usize)>, u: usize) -> Seq<(usize, bool)> {
    arcs_out(arcs, u) + arcs_in(arcs, u)
}

/// `LinkedListGraph::new_builder`: a builder without nodes or edges.
#[verifier::external_body]
pub(crate) fn new_builder() -> (b: LinkedListGraphBuilder<usize, (), ()>)
    ensures
        builder_nodes(b) == 0,
        builder_arcs(b) == Seq::<(usize, usize)>::empty(),
{
    LinkedListGraph::<usize, (), ()>::new_builder()
}

/// `Builder::add_node`, which panics when the ids run out: the new node gets
/// the next id, and the edges stay.
#[verifier::external_body]
pub(crate) fn add_node(b: &mut LinkedListGraphBuilder<usize, (), ()>) -> (id: usize)
    requires
        builder_nodes(*old(b)) + 1 < usize::MAX,
    ensures
        id == builder_nodes(*old(b)),
        builder_nodes(*final(b)) == builder_nodes(*old(b)) + 1,
        builder_arcs(*final(b)) == builder_arcs(*old(b)),
{
    let u = b.add_node();
    b.node2id(u)
}

/// `Builder::add_edge` between the nodes with ids `u` and `v`, which panics
/// on an id that names no node and when the ids run out (an edge takes two):
/// the new edge gets the next id and goes to the end, and the nodes stay.
#[verifier::external_body]
pub(crate) fn add_edge(b: &mut LinkedListGraphBuilder<usize, (), ()>, u: usize, v: usize) -> (id:
    usize)
    requires
        u < builder_nodes(*old(b)),
        v < builder_nodes(*old(b)),
        2 * builder_arcs(*old(b)).len() + 2 < usize::MAX,
    ensures
        id == builder_arcs(*old(b)).len(),
        builder_arcs(*final(b)) == builder_arcs(*old(b)).push((u, v)),
        builder_nodes(*final(b)) == builder_nodes(*old(b)),
{
    let e = b.add_edge(b.id2node(u), b.id2node(v));
    b.edge2id(e)
}

/// `Builder::into_graph`: the graph has the nodes and edges of the builder.
#[verifier::external_body]
pub(crate) fn into_graph(b: LinkedListGraphBuilder<usize, (), ()>) -> (g: LinkedListGraph<
    usize,
    (),
    (),
>)
    ensures
        graph_nodes(g) == builder_nodes(b),
        graph_arcs(g) == builder_arcs(b),
{
    b.into_graph()
}

/// `Directed::incident_edges` at the node with id `u`, which panics on an id
/// that names no node: each edge at the node as its id and whether it
/// enters the node (`DirectedEdge::is_incoming`), in the order of the walk.
#[verifier::external_body]
pub(crate) fn incident_edges(g: &LinkedListGraph<usize, (), ()>, u: usize) -> (inc: Vec<
    (usize, bool),
>)
    requires
        u < graph_nodes(*g),
    ensures
        inc@ == incident(graph_arcs(*g), u),
{
    g.incident_edges(g.id2node(u)).map(|(e, _)| (g.edge_id(e), e.is_incoming())).collect()
}

} // verus!
