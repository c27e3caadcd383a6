use vstd::prelude::*;

use crate::prelude::coordinates::Coordinates;

verus! {

#[verifier::external_type_specification]
#[verifier::external_body]
pub struct ExUndirected(petgraph::Undirected);

#[verifier::external_type_specification]
#[verifier::external_body]
#[verifier::reject_recursive_types(N)]
#[verifier::reject_recursive_types(E)]
#[verifier::reject_recursive_types(Ty)]
#[verifier::reject_recursive_types(S)]
pub struct ExGraphMap<N, E, Ty, S>(petgraph::graphmap::GraphMap<N, E, Ty, S>) where
    S: std::hash::BuildHasher;

/// The undirected graph a maze owns: nodes are cell coordinates, an edge
/// between two cells means an open passage between them.
pub type MazeGraph = petgraph::graphmap::GraphMap<
    Coordinates,
    (),
    petgraph::Undirected,
    std::collections::hash_map::RandomState,
>;

/// The set of nodes the graph holds.
pub uninterp spec fn graph_nodes(g: MazeGraph) -> Set<Coordinates>;

/// The set of edges the graph holds, as ordered pairs: an undirected edge
/// between `a` and `b` is in the set as both `(a, b)` and `(b, a)`.
pub uninterp spec fn graph_edges(g: MazeGraph) -> Set<(Coordinates, Coordinates)>;

/// Whether two graphs with these node and edge sets are isomorphic. Graph
/// isomorphism is a property of the abstract graphs, so it is a function of
/// the two node and edge sets alone.
pub uninterp spec fn iso_of(
    na: Set<Coordinates>,
    ea: Set<(Coordinates, Coordinates)>,
    nb: Set<Coordinates>,
    eb: Set<(Coordinates, Coordinates)>,
) -> bool;

/// Relies on petgraph's `GraphMap::with_capacity`: a fresh graph holds no
/// nodes and no edges.
#[verifier::external_body]
pub(crate) fn graph_new(nodes: usize) -> (g: MazeGraph)
    ensures
        graph_nodes(g) == Set::<Coordinates>::empty(),
        graph_edges(g) == Set::<(Coordinates, Coordinates)>::empty(),
{
    petgraph::graphmap::GraphMap::with_capacity(nodes, 0)
}

/// Relies on petgraph's `GraphMap::add_node`: inserts the node and leaves
/// the edges unchanged.
#[verifier::external_body]
pub(crate) fn graph_add_node(g: &mut MazeGraph, c: Coordinates)
    ensures
        graph_nodes(*final(g)) == graph_nodes(*old(g)).insert(c),
        graph_edges(*final(g)) == graph_edges(*old(g)),
{
    g.add_node(c);
}

/// Relies on petgraph's `GraphMap::add_edge` on an undirected graph: the
/// edge becomes present in both orientations, and any endpoint missing from
/// the node set is inserted.
#[verifier::external_body]
pub(crate) fn graph_add_edge(g: &mut MazeGraph, a: Coordinates, b: Coordinates)
    requires
        a != b,
    ensures
        graph_nodes(*final(g)) == graph_nodes(*old(g)).insert(a).insert(b),
        graph_edges(*final(g)) == graph_edges(*old(g)).insert((a, b)).insert((b, a)),
{
    g.add_edge(a, b, ());
}

/// Relies on petgraph's `GraphMap::contains_edge` on an undirected graph:
/// true exactly when a passage between the two cells is present.
#[verifier::external_body]
pub(crate) fn graph_contains_edge(g: &MazeGraph, a: Coordinates, b: Coordinates) -> (r: bool)
    ensures
        r == graph_edges(*g).contains((a, b)),
{
    g.contains_edge(a, b)
}

/// Relies on petgraph's `GraphMap::node_count`: the number of nodes.
#[verifier::external_body]
pub(crate) fn graph_node_count(g: &MazeGraph) -> (r: usize)
    ensures
        graph_nodes(*g).finite() ==> r as int == graph_nodes(*g).len(),
{
    g.node_count()
}

/// Relies on petgraph's `GraphMap::edge_count`: the number of undirected
/// edges. When the edge set is symmetric and free of self-loops, each
/// undirected edge stands in it as exactly two ordered pairs.
#[verifier::external_body]
pub(crate) fn graph_edge_count(g: &MazeGraph) -> (r: usize)
    ensures
        (graph_edges(*g).finite() && (forall|a: Coordinates, b: Coordinates|
            #[trigger] graph_edges(*g).contains((a, b)) ==> graph_edges(*g).contains((b, a)))
            && (forall|a: Coordinates| !(#[trigger] graph_edges(*g).contains((a, a))))) ==> 2 * (
        r as int) == graph_edges(*g).len(),
{
    g.edge_count()
}

/// Relies on `Clone` for petgraph's `GraphMap`: the copy holds the same
/// nodes and edges.
#[verifier::external_body]
pub(crate) fn graph_clone(g: &MazeGraph) -> (r: MazeGraph)
    ensures
        graph_nodes(r) == graph_nodes(*g),
        graph_edges(r) == graph_edges(*g),
{
    g.clone()
}

/// Relies on petgraph's `algo::is_isomorphic`: whether the two graphs are
/// isomorphic, a deterministic function of the two graphs alone. Graph
/// isomorphism is symmetric, and two graphs with equal node and edge sets
/// are isomorphic (by the identity mapping).
#[verifier::external_body]
pub(crate) fn graph_iso(a: &MazeGraph, b: &MazeGraph) -> (r: bool)
    ensures
        r == iso_of(graph_nodes(*a), graph_edges(*a), graph_nodes(*b), graph_edges(*b)),
        r == iso_of(graph_nodes(*b), graph_edges(*b), graph_nodes(*a), graph_edges(*a)),
        (graph_nodes(*a) == graph_nodes(*b) && graph_edges(*a) == graph_edges(*b)) ==> r,
{
    petgraph::algo::is_isomorphic(
        &a.clone().into_graph::<petgraph::stable_graph::DefaultIx>(),
        &b.clone().into_graph::<petgraph::stable_graph::DefaultIx>(),
    )
}

} // verus!
