//! Directed graphs and their strongly connected components.
//!
//! The graph and the two component algorithms are `petgraph`'s. A node's weight
//! is its own number here, so that components are lists of node numbers.

use vstd::prelude::*;

verus! {

/// `petgraph::graph::Graph`.
#[verifier::external_type_specification]
#[verifier::external_body]
#[verifier::reject_recursive_types(N)]
#[verifier::reject_recursive_types(E)]
#[verifier::reject_recursive_types(Ty)]
#[verifier::reject_recursive_types(Ix)]
pub struct ExGraph<N, E, Ty, Ix>(petgraph::graph::Graph<N, E, Ty, Ix>);

/// `petgraph::Directed`, which marks a graph as directed.
#[verifier::external_type_specification]
#[verifier::external_body]
pub struct ExDirected(petgraph::Directed);

/// The weights of the nodes, by node number.
pub uninterp spec fn graph_nodes(g: petgraph::graph::DiGraph<usize, ()>) -> Seq<usize>;

/// The edges in the order in which they were added, each with the numbers of
/// the node that it leaves and of the node that it enters.
pub uninterp spec fn graph_edges(g: petgraph::graph::DiGraph<usize, ()>) -> Seq<(usize, usize)>;

/// The nodes that each node of a condensed graph stands for, by node number.
pub uninterp spec fn condensed_nodes(g: petgraph::graph::DiGraph<Vec<usize>, ()>) -> Seq<
    Seq<usize>,
>;

/// The edges of a condensed graph.
pub uninterp spec fn condensed_edges(g: petgraph::graph::DiGraph<Vec<usize>, ()>) -> Seq<
    (usize, usize),
>;

/// The components of the graph with `nodes` nodes and these edges, in the order
/// in which `petgraph::algo::condensation` numbers them.
pub uninterp spec fn condensation_order(nodes: nat, edges: Seq<(usize, usize)>) -> Seq<Seq<usize>>;

/// The components of the graph with `nodes` nodes and these edges, as
/// `petgraph::algo::tarjan_scc` lists them.
pub uninterp spec fn tarjan_order(nodes: nat, edges: Seq<(usize, usize)>) -> Seq<Seq<usize>>;

/// Each node's weight is its number.
pub open spec fn numbered(nodes: Seq<usize>) -> bool {
    forall|i: int| 0 <= i < nodes.len() ==> #[trigger] nodes[i] == i
}

/// `path` goes along edges.
pub open spec fn is_path(edges: Seq<(usize, usize)>, path: Seq<usize>) -> bool {
    forall|i: int|
        0 <= i < path.len() - 1 ==> #[trigger] edges.contains((path[i], path[i + 1]))
}

/// A path leads from `a` to `b`; every node reaches itself.
pub open spec fn reaches(edges: Seq<(usize, usize)>, a: usize, b: usize) -> bool {
    exists|path: Seq<usize>|
        path.len() > 0 && path[0] == a && path.last() == b && #[trigger] is_path(edges, path)
}

/// `a` and `b` reach each other.
pub open spec fn mutual(edges: Seq<(usize, usize)>, a: usize, b: usize) -> bool {
    reaches(edges, a, b) && reaches(edges, b, a)
}

/// `comps` are the strongly connected components of the graph: every node is in
/// exactly one, once, and two nodes are in the same one if and only if they
/// reach each other. No edge leads to a component further back in the list.
pub open spec fn are_components(
    comps: Seq<Seq<usize>>,
    nodes: nat,
    edges: Seq<(usize, usize)>,
) -> bool {
    &&& forall|i: int|
        0 <= i < comps.len() ==> (#[trigger] comps[i]).len() > 0 && comps[i].no_duplicates()
    &&& forall|i: int, a: usize|
        0 <= i < comps.len() && #[trigger] comps[i].contains(a) ==> a < nodes
    &&& forall|a: usize| a < nodes ==> #[trigger] listed(comps, a)
    &&& forall|i: int, j: int, a: usize|
        0 <= i < comps.len() && 0 <= j < comps.len() && #[trigger] comps[i].contains(a)
            && #[trigger] comps[j].contains(a) ==> i == j
    &&& forall|i: int, a: usize, b: usize|
        0 <= i < comps.len() && #[trigger] comps[i].contains(a) && b < nodes ==> (comps[i].contains(
            b,
        ) <==> #[trigger] mutual(edges, a, b))
    &&& forall|i: int, j: int, a: usize, b: usize|
        0 <= i < comps.len() && 0 <= j < comps.len() && #[trigger] comps[i].contains(a)
            && #[trigger] comps[j].contains(b) && edges.contains((a, b)) ==> j <= i
}

/// Some component holds `a`.
pub open spec fn listed(comps: Seq<Seq<usize>>, a: usize) -> bool {
    exists|i: int| 0 <= i < comps.len() && #[trigger] comps[i].contains(a)
}

/// An edge leads from component `i` to another component `j`.
pub open spec fn component_edge(
    comps: Seq<Seq<usize>>,
    edges: Seq<(usize, usize)>,
    i: int,
    j: int,
) -> bool {
    i != j && exists|a: usize, b: usize|
        #[trigger] comps[i].contains(a) && #[trigger] comps[j].contains(b) && edges.contains(
            (a, b),
        )
}

/// The nodes that the edges out of `a` enter, the last edge first.
pub open spec fn targets(edges: Seq<(usize, usize)>, a: usize) -> Seq<usize>
    decreases edges.len(),
{
    if edges.len() == 0 {
        Seq::empty()
    } else if edges.last().0 == a {
        seq![edges.last().1] + targets(edges.drop_last(), a)
    } else {
        targets(edges.drop_last(), a)
    }
}

/// The targets of `a` are the nodes to which an edge leads from `a`.
pub proof fn lemma_targets(edges: Seq<(usize, usize)>, a: usize)
    ensures
        forall|b: usize| #[trigger] targets(edges, a).contains(b) <==> edges.contains((a, b)),
    decreases edges.len(),
{
    if edges.len() > 0 {
        let rest = edges.drop_last();
        lemma_targets(rest, a);
        assert(edges =~= rest.push(edges.last()));
        assert forall|b: usize| #[trigger] targets(edges, a).contains(b) <==> edges.contains(
            (a, b),
        ) by {
            let t = targets(edges, a);
            let u = targets(rest, a);
            if edges.last().0 == a {
                assert(t == seq![edges.last().1] + u);
                if u.contains(b) {
                    let k = u.index_of(b);
                    assert(t[k + 1] == b);
                }
                assert(t[0] == edges.last().1);
                if t.contains(b) && b != edges.last().1 {
                    let k = t.index_of(b);
                    assert(u[k - 1] == b);
                }
            }
            if rest.contains((a, b)) {
                let k = rest.index_of((a, b));
                assert(edges[k] == (a, b));
            }
            if edges.contains((a, b)) && !rest.contains((a, b)) {
                let k = edges.index_of((a, b));
                if k < rest.len() {
                    assert(rest[k] == (a, b));
                }
            }
            if edges.last() == (a, b) {
                assert(edges[edges.len() - 1] == (a, b));
            }
        }
    }
}

/// `petgraph::graph::Graph::new` has no node and no edge.
#[verifier::external_body]
pub(crate) fn new_graph() -> (g: petgraph::graph::DiGraph<usize, ()>)
    ensures
        graph_nodes(g) == Seq::<usize>::empty(),
        graph_edges(g) == Seq::<(usize, usize)>::empty(),
{
    petgraph::graph::DiGraph::new()
}

/// `petgraph::graph::Graph::add_node` appends a node. It panics where the graph
/// already has as many nodes as its 32-bit numbers allow.
#[verifier::external_body]
pub(crate) fn add_node(g: &mut petgraph::graph::DiGraph<usize, ()>, weight: usize) -> (r: usize)
    requires
        graph_nodes(*old(g)).len() < u32::MAX,
    ensures
        r == graph_nodes(*old(g)).len(),
        graph_nodes(*final(g)) == graph_nodes(*old(g)).push(weight),
        graph_edges(*final(g)) == graph_edges(*old(g)),
{
    g.add_node(weight).index()
}

/// `petgraph::graph::Graph::add_edge` appends an edge, parallel edges included.
/// It panics where a node is not there, and where the graph already has as many
/// edges as its 32-bit numbers allow.
#[verifier::external_body]
pub(crate) fn add_edge(g: &mut petgraph::graph::DiGraph<usize, ()>, a: usize, b: usize)
    requires
        a < graph_nodes(*old(g)).len(),
        b < graph_nodes(*old(g)).len(),
        graph_edges(*old(g)).len() < u32::MAX,
    ensures
        graph_nodes(*final(g)) == graph_nodes(*old(g)),
        graph_edges(*final(g)) == graph_edges(*old(g)).push((a, b)),
{
    g.add_edge(petgraph::graph::NodeIndex::new(a), petgraph::graph::NodeIndex::new(b), ());
}

/// `petgraph::graph::Graph::contains_edge` says whether an edge leads from `a`
/// to `b`.
#[verifier::external_body]
pub(crate) fn contains_edge(g: &petgraph::graph::DiGraph<usize, ()>, a: usize, b: usize) -> (r:
    bool)
    requires
        a < u32::MAX,
        b < u32::MAX,
    ensures
        r == graph_edges(*g).contains((a, b)),
{
    g.contains_edge(petgraph::graph::NodeIndex::new(a), petgraph::graph::NodeIndex::new(b))
}

/// `petgraph::graph::Graph::neighbors_directed`, outgoing, lists the nodes that
/// the edges out of `a` enter, the edge added last first.
#[verifier::external_body]
pub(crate) fn callees(g: &petgraph::graph::DiGraph<usize, ()>, a: usize) -> (r: Vec<usize>)
    requires
        a < u32::MAX,
    ensures
        r@ == targets(graph_edges(*g), a),
{
    g.neighbors_directed(petgraph::graph::NodeIndex::new(a), petgraph::Direction::Outgoing).map(
        |n| n.index(),
    ).collect()
}

/// `petgraph::algo::tarjan_scc` lists the strongly connected components, in
/// reverse topological order. The list depends on the graph alone. The search
/// recurses along paths, so that its need of stack grows with the graph.
#[verifier::external_body]
pub(crate) fn tarjan_scc(g: &petgraph::graph::DiGraph<usize, ()>) -> (r: Vec<Vec<usize>>)
    ensures
        component_lists(r@) == tarjan_order(graph_nodes(*g).len(), graph_edges(*g)),
        are_components(component_lists(r@), graph_nodes(*g).len(), graph_edges(*g)),
{
    petgraph::algo::tarjan_scc(g).into_iter().map(
        |c| c.into_iter().map(|n| n.index()).collect(),
    ).collect()
}

/// The contents of a list of lists.
pub open spec fn component_lists(v: Seq<Vec<usize>>) -> Seq<Seq<usize>> {
    v.map_values(|c: Vec<usize>| c@)
}

/// `petgraph::algo::condensation`, made acyclic, has a node for each strongly
/// connected component, which holds the weights of the component's nodes, and
/// one edge from a component to another where an edge of the graph leads from
/// the one to the other. It numbers the components in reverse topological order
/// (that of `petgraph::algo::kosaraju_scc`); the order depends on the graph alone.
#[verifier::external_body]
pub(crate) fn condensation(g: petgraph::graph::DiGraph<usize, ()>) -> (r: petgraph::graph::DiGraph<
    Vec<usize>,
    (),
>)
    requires
        numbered(graph_nodes(g)),
    ensures
        condensed_nodes(r) == condensation_order(graph_nodes(g).len(), graph_edges(g)),
        are_components(condensed_nodes(r), graph_nodes(g).len(), graph_edges(g)),
        forall|i: usize, j: usize|
            i < condensed_nodes(r).len() && j < condensed_nodes(r).len() ==> (
            #[trigger] condensed_edges(r).contains((i, j)) <==> component_edge(
                condensed_nodes(r),
                graph_edges(g),
                i as int,
                j as int,
            )),
{
    petgraph::algo::condensation(g, true)
}

/// `petgraph::graph::Graph::node_count` of a condensed graph.
#[verifier::external_body]
pub(crate) fn component_count(g: &petgraph::graph::DiGraph<Vec<usize>, ()>) -> (r: usize)
    ensures
        r == condensed_nodes(*g).len(),
{
    g.node_count()
}

/// The weight of node `i` of a condensed graph, which indexing gives: the nodes
/// of component `i`.
#[verifier::external_body]
pub(crate) fn component(g: &petgraph::graph::DiGraph<Vec<usize>, ()>, i: usize) -> (r: Vec<usize>)
    requires
        i < condensed_nodes(*g).len(),
    ensures
        r@ == condensed_nodes(*g)[i as int],
{
    g[petgraph::graph::NodeIndex::new(i)].clone()
}

/// `petgraph::graph::Graph::neighbors_directed`, outgoing, on a condensed graph:
/// the components to which an edge leads from component `i`.
#[verifier::external_body]
pub(crate) fn component_callees(g: &petgraph::graph::DiGraph<Vec<usize>, ()>, i: usize) -> (r: Vec<
    usize,
>)
    requires
        i < condensed_nodes(*g).len(),
    ensures
        r@ == targets(condensed_edges(*g), i),
        forall|k: int| 0 <= k < r@.len() ==> #[trigger] r@[k] < condensed_nodes(*g).len(),
{
    g.neighbors_directed(petgraph::graph::NodeIndex::new(i), petgraph::Direction::Outgoing).map(
        |n| n.index(),
    ).collect()
}

} // verus!
