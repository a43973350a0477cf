//! Pathfinding on the grid as an explicit graph: every cell a node, every
//! pair of neighbouring cells an edge.

use petgraph::graphmap::{GraphMap, UnGraphMap};
use petgraph::Undirected;
use std::hash::BuildHasher;
use vstd::prelude::*;

use super::error::SimulationError;
use super::{Position, World};

verus! {

/// The graph map of `petgraph`. Nothing is known of what is inside one but
/// through [`graph_nodes`] and [`graph_edges`].
#[verifier::external_type_specification]
#[verifier::external_body]
#[verifier::reject_recursive_types(N)]
#[verifier::reject_recursive_types(E)]
#[verifier::reject_recursive_types(Ty)]
#[verifier::reject_recursive_types(S)]
pub struct ExGraphMap<N, E, Ty, S: BuildHasher>(GraphMap<N, E, Ty, S>);

/// The marker of `petgraph` for graphs whose edges have no direction.
#[verifier::external_type_specification]
#[verifier::external_body]
pub struct ExUndirected(Undirected);

/// The grid as a graph: the nodes are cells, by their coordinates.
pub type GardenGraph = UnGraphMap<(i32, i32), ()>;

/// The nodes that a graph holds.
pub uninterp spec fn graph_nodes(graph: GardenGraph) -> Set<(i32, i32)>;

/// The edges that a graph holds, each as the pair of its ends with the
/// smaller end first.
pub uninterp spec fn graph_edges(graph: GardenGraph) -> Set<((i32, i32), (i32, i32))>;

/// The order of two nodes: by the first coordinate, then by the second.
pub open spec fn precedes(a: (i32, i32), b: (i32, i32)) -> bool {
    a.0 < b.0 || (a.0 == b.0 && a.1 <= b.1)
}

/// The pair that stands for an edge between two nodes: the smaller node
/// first.
pub open spec fn link(a: (i32, i32), b: (i32, i32)) -> ((i32, i32), (i32, i32)) {
    if precedes(a, b) {
        (a, b)
    } else {
        (b, a)
    }
}

pub open spec fn on_grid(node: (i32, i32), width: i32, height: i32) -> bool {
    0 <= node.0 < width && 0 <= node.1 < height
}

/// The Manhattan distance of two nodes.
pub open spec fn apart(a: (i32, i32), b: (i32, i32)) -> int {
    (if a.0 >= b.0 {
        a.0 - b.0
    } else {
        b.0 - a.0
    }) + (if a.1 >= b.1 {
        a.1 - b.1
    } else {
        b.1 - a.1
    })
}

/// The pair stands for an edge between two neighbouring cells of the grid.
pub open spec fn is_grid_link(edge: ((i32, i32), (i32, i32)), width: i32, height: i32) -> bool {
    &&& on_grid(edge.0, width, height)
    &&& on_grid(edge.1, width, height)
    &&& apart(edge.0, edge.1) == 1
    &&& precedes(edge.0, edge.1)
}

/// The cells of the grid.
pub open spec fn grid_cells(width: i32, height: i32) -> Set<(i32, i32)> {
    Set::new(|node: (i32, i32)| on_grid(node, width, height))
}

/// The edges between neighbouring cells of the grid.
pub open spec fn grid_links(width: i32, height: i32) -> Set<((i32, i32), (i32, i32))> {
    Set::new(|edge: ((i32, i32), (i32, i32))| is_grid_link(edge, width, height))
}

/// `path` leads from `start` to `goal` along edges.
pub open spec fn is_linked_route(
    path: Seq<(i32, i32)>,
    start: (i32, i32),
    goal: (i32, i32),
    edges: Set<((i32, i32), (i32, i32))>,
) -> bool {
    &&& path.len() >= 1
    &&& path[0] == start
    &&& path.last() == goal
    &&& forall|i: int| 1 <= i < path.len() ==> edges.contains(link(#[trigger] path[i - 1], path[i]))
}

/// `path` leads from `start` to `goal` along edges, and no path that does
/// is shorter.
pub open spec fn is_shortest_linked_route(
    path: Seq<(i32, i32)>,
    start: (i32, i32),
    goal: (i32, i32),
    edges: Set<((i32, i32), (i32, i32))>,
) -> bool {
    &&& is_linked_route(path, start, goal, edges)
    &&& forall|other: Seq<(i32, i32)>|
        is_linked_route(other, start, goal, edges) ==> path.len() <= other.len()
}

/// Every edge joins two cells next to each other.
pub open spec fn joins_neighbors(edges: Set<((i32, i32), (i32, i32))>) -> bool {
    forall|edge: ((i32, i32), (i32, i32))| #[trigger] edges.contains(edge) ==> apart(edge.0, edge.1) == 1
}

/// Calls `UnGraphMap::new`. Trusted: the new graph holds no node and no
/// edge.
#[verifier::external_body]
fn new_graph() -> (graph: GardenGraph)
    ensures
        graph_nodes(graph) == Set::<(i32, i32)>::empty(),
        graph_edges(graph) == Set::<((i32, i32), (i32, i32))>::empty(),
{
    UnGraphMap::new()
}

/// Calls `GraphMap::add_node`. Trusted: the node is among the graph's nodes
/// afterwards, nothing else changes, and the node is handed back.
#[verifier::external_body]
fn add_node(graph: &mut GardenGraph, node: (i32, i32)) -> (added: (i32, i32))
    ensures
        added == node,
        graph_nodes(*final(graph)) == graph_nodes(*old(graph)).insert(node),
        graph_edges(*final(graph)) == graph_edges(*old(graph)),
{
    graph.add_node(node)
}

/// Calls `GraphMap::add_edge` with the unit weight. Trusted: the edge is
/// among the graph's edges afterwards, under the pair with its smaller end
/// first, and both ends are among the nodes; nothing else changes. The
/// call tells whether the edge was there before.
#[verifier::external_body]
fn add_edge(graph: &mut GardenGraph, a: (i32, i32), b: (i32, i32)) -> (previous: Option<()>)
    ensures
        previous is Some <==> graph_edges(*old(graph)).contains(link(a, b)),
        graph_edges(*final(graph)) == graph_edges(*old(graph)).insert(link(a, b)),
        graph_nodes(*final(graph)) == graph_nodes(*old(graph)).insert(a).insert(b),
{
    graph.add_edge(a, b, ())
}

/// The cost of the move along an edge.
pub fn unit_cost() -> (cost: i64)
    ensures
        cost == 1,
{
    1
}

/// Whether the node is the goal.
pub fn reached(node: (i32, i32), goal: (i32, i32)) -> (r: bool)
    ensures
        r == (node == goal),
{
    node.0 == goal.0 && node.1 == goal.1
}

/// Computes the Manhattan distance of two nodes.
pub fn distance(a: (i32, i32), b: (i32, i32)) -> (d: i64)
    ensures
        d == apart(a, b),
{
    let ax: i64 = a.0 as i64;
    let ay: i64 = a.1 as i64;
    let bx: i64 = b.0 as i64;
    let by: i64 = b.1 as i64;
    let dx: i64 = if ax >= bx { ax - bx } else { bx - ax };
    let dy: i64 = if ay >= by { ay - by } else { by - ay };
    dx + dy
}

/// Calls `petgraph::algo::astar` on the graph from `start`, with
/// [`reached`] as the test for the goal, [`unit_cost`] for the cost of an
/// edge and the [`distance`] to the goal as the estimate.
///
/// Trusted: a path that comes back starts at `start`, ends at `goal`, goes
/// along edges of the graph, comes with its number of edges as cost, and is
/// no longer than any other such path. Nothing comes back only where there
/// is no such path. The edges must join neighbouring cells: the estimate
/// then never exceeds the cost that is left.
#[verifier::external_body]
fn graph_astar(graph: &GardenGraph, start: (i32, i32), goal: (i32, i32)) -> (found: Option<
    (i64, Vec<(i32, i32)>),
>)
    requires
        joins_neighbors(graph_edges(*graph)),
    ensures
        found matches Some((cost, path)) ==> cost == path@.len() - 1 && is_shortest_linked_route(
            path@,
            start,
            goal,
            graph_edges(*graph),
        ),
        found is None ==> forall|other: Seq<(i32, i32)>|
            !is_linked_route(other, start, goal, graph_edges(*graph)),
{
    petgraph::algo::astar(
        graph,
        start,
        |node| reached(node, goal),
        |_| unit_cost(),
        |node| distance(node, goal),
    )
}

/// The node next to `node` on side `k`, counting north, east, south, west
/// from zero.
pub open spec fn neighbor_of(node: (i32, i32), k: int) -> (int, int) {
    if k == 0 {
        (node.0 as int, node.1 - 1)
    } else if k == 1 {
        (node.0 + 1, node.1 as int)
    } else if k == 2 {
        (node.0 as int, node.1 + 1)
    } else {
        (node.0 - 1, node.1 as int)
    }
}

/// The cell has had its turn when the cells are taken column by column and
/// the turn of cell `(x, y)` is next.
pub open spec fn is_before(node: (i32, i32), x: int, y: int) -> bool {
    node.0 < x || (node.0 == x && node.1 < y)
}

/// The nodes are cells of the grid, with every cell that has had its turn
/// among them; the edges join neighbouring cells, with every such edge at a
/// cell that has had its turn among them.
pub open spec fn is_grid_graph_up_to(
    nodes: Set<(i32, i32)>,
    edges: Set<((i32, i32), (i32, i32))>,
    width: i32,
    height: i32,
    x: int,
    y: int,
) -> bool {
    &&& forall|node: (i32, i32)| #[trigger] nodes.contains(node) ==> on_grid(node, width, height)
    &&& forall|edge: ((i32, i32), (i32, i32))| #[trigger]
        edges.contains(edge) ==> is_grid_link(edge, width, height)
    &&& forall|node: (i32, i32)|
        on_grid(node, width, height) && is_before(node, x, y) ==> #[trigger] nodes.contains(node)
    &&& forall|edge: ((i32, i32), (i32, i32))|
        is_grid_link(edge, width, height) && (is_before(edge.0, x, y) || is_before(edge.1, x, y))
            ==> #[trigger] edges.contains(edge)
}

/// The graph of the world's grid: a node for every cell, and an edge
/// between every two cells that lie next to each other.
pub fn graph_from_world(world: &World) -> (graph: GardenGraph)
    ensures
        graph_nodes(graph) == grid_cells(world@.width, world@.height),
        graph_edges(graph) == grid_links(world@.width, world@.height),
{
    let width: i32 = *world.get_width();
    let height: i32 = *world.get_height();
    let mut g = new_graph();
    let mut x: i32 = 0;
    while x < width
        invariant
            0 <= x,
            x <= width || x == 0,
            is_grid_graph_up_to(graph_nodes(g), graph_edges(g), width, height, x as int, 0),
        decreases width - x,
    {
        let mut y: i32 = 0;
        while y < height
            invariant
                0 <= x < width,
                0 <= y,
                y <= height || y == 0,
                is_grid_graph_up_to(
                    graph_nodes(g),
                    graph_edges(g),
                    width,
                    height,
                    x as int,
                    y as int,
                ),
            decreases height - y,
        {
            let node = add_node(&mut g, (x, y));
            let mut k: usize = 0;
            while k < 4
                invariant
                    0 <= x < width,
                    0 <= y < height,
                    k <= 4,
                    node == (x, y),
                    graph_nodes(g).contains(node),
                    is_grid_graph_up_to(
                        graph_nodes(g),
                        graph_edges(g),
                        width,
                        height,
                        x as int,
                        y as int,
                    ),
                    forall|j: int, other: (i32, i32)|
                        0 <= j < k && #[trigger] neighbor_of(node, j) == (
                            other.0 as int,
                            other.1 as int,
                        ) && on_grid(other, width, height) ==> graph_edges(g).contains(
                            #[trigger] link(node, other),
                        ),
                decreases 4 - k,
            {
                let (neighbor_x, neighbor_y): (i32, i32) = if k == 0 {
                    (x, y - 1)
                } else if k == 1 {
                    (x + 1, y)
                } else if k == 2 {
                    (x, y + 1)
                } else {
                    (x - 1, y)
                };
                if !(neighbor_x < 0 || neighbor_x >= width || neighbor_y < 0 || neighbor_y
                    >= height) {
                    let neighbor = add_node(&mut g, (neighbor_x, neighbor_y));
                    add_edge(&mut g, node, neighbor);
                    assert(is_grid_link(link(node, neighbor), width, height));
                }
                k += 1;
            }
            proof {
                assert forall|edge: ((i32, i32), (i32, i32))|
                    is_grid_link(edge, width, height) && (is_before(edge.0, x as int, y + 1)
                        || is_before(edge.1, x as int, y + 1)) implies #[trigger] graph_edges(
                    g,
                ).contains(edge) by {
                    if !(is_before(edge.0, x as int, y as int) || is_before(
                        edge.1,
                        x as int,
                        y as int,
                    )) {
                        let other = if edge.0 == node {
                            edge.1
                        } else {
                            edge.0
                        };
                        assert(edge.0 == node || edge.1 == node);
                        assert(edge == link(node, other));
                        let j: int = if other.1 == node.1 - 1 {
                            0
                        } else if other.0 == node.0 + 1 {
                            1
                        } else if other.1 == node.1 + 1 {
                            2
                        } else {
                            3
                        };
                        assert(neighbor_of(node, j) == (other.0 as int, other.1 as int));
                    }
                }
            }
            y += 1;
        }
        proof {
            assert forall|node: (i32, i32)|
                on_grid(node, width, height) && is_before(node, x + 1, 0) implies #[trigger] graph_nodes(
                g,
            ).contains(node) by {
                assert(is_before(node, x as int, y as int));
            }
            assert forall|edge: ((i32, i32), (i32, i32))|
                is_grid_link(edge, width, height) && (is_before(edge.0, x + 1, 0) || is_before(
                    edge.1,
                    x + 1,
                    0,
                )) implies #[trigger] graph_edges(g).contains(edge) by {
                assert(is_before(edge.0, x as int, y as int) || is_before(
                    edge.1,
                    x as int,
                    y as int,
                ));
            }
        }
        x += 1;
    }
    proof {
        assert forall|node: (i32, i32)| on_grid(node, width, height) implies graph_nodes(
            g,
        ).contains(node) by {
            assert(is_before(node, x as int, 0));
        }
        assert forall|edge: ((i32, i32), (i32, i32))|
            is_grid_link(edge, width, height) implies graph_edges(g).contains(edge) by {
            assert(is_before(edge.0, x as int, 0));
        }
        assert(graph_nodes(g) =~= grid_cells(width, height));
        assert(graph_edges(g) =~= grid_links(width, height));
    }
    g
}

/// What the caller of a search gets for the path that it found: the number
/// of moves and the second node, the next to step on. For a path that ends
/// where it starts, one move and the start itself.
pub open spec fn first_step_of(path: Seq<(i32, i32)>) -> (usize, Position) {
    if path.len() == 1 {
        (1usize, Position { x: path[0].0, y: path[0].1 })
    } else {
        ((path.len() - 1) as usize, Position { x: path[1].0, y: path[1].1 })
    }
}

/// Picks out of what a search found the cost and the next step.
pub fn first_step(found: Option<(i64, Vec<(i32, i32)>)>) -> (r: Result<
    (usize, Position),
    SimulationError,
>)
    requires
        found matches Some((_, path)) ==> path@.len() >= 1,
    ensures
        r == (match found {
            Some((_, path)) => Ok::<(usize, Position), SimulationError>(first_step_of(path@)),
            None => Err::<(usize, Position), SimulationError>(SimulationError::PathUnreachable),
        }),
{
    match found {
        Some((_, path)) => {
            if path.len() == 1 {
                Ok((1, Position { x: path[0].0, y: path[0].1 }))
            } else {
                Ok((path.len() - 1, Position { x: path[1].0, y: path[1].1 }))
            }
        },
        None => Err(SimulationError::PathUnreachable),
    }
}

/// Finds a shortest path from `cur_pos` to `goal` along the edges of the
/// world's grid graph, and returns its cost and the next position on it.
///
/// The search fails exactly where no path leads to the goal; a position off
/// the grid is joined to nothing. From a position to itself it gives cost 1
/// and that position.
pub fn a_star_pathfind(cur_pos: &Position, goal: &Position, world: &World) -> (r: Result<
    (usize, Position),
    SimulationError,
>)
    ensures
        match r {
            Ok(step) => exists|path: Seq<(i32, i32)>| #[trigger]
                is_shortest_linked_route(
                    path,
                    (cur_pos.x, cur_pos.y),
                    (goal.x, goal.y),
                    grid_links(world@.width, world@.height),
                ) && step == first_step_of(path),
            Err(error) => error == SimulationError::PathUnreachable && forall|
                path: Seq<(i32, i32)>,
            |
                !is_linked_route(
                    path,
                    (cur_pos.x, cur_pos.y),
                    (goal.x, goal.y),
                    grid_links(world@.width, world@.height),
                ),
        },
        *cur_pos == *goal ==> r == Ok::<(usize, Position), SimulationError>((1usize, *cur_pos)),
{
    let mut graph = graph_from_world(world);
    let a = add_node(&mut graph, (cur_pos.x, cur_pos.y));
    let f = add_node(&mut graph, (goal.x, goal.y));
    proof {
        if *cur_pos == *goal {
            assert(is_linked_route(seq![a], a, f, graph_edges(graph)));
        }
    }
    let found = graph_astar(&graph, a, f);
    first_step(found)
}

} // verus!
