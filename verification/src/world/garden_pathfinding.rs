//! Pathfinding on the grid: A* over the cells, from each cell to its four
//! neighbours, at unit cost and with the Manhattan distance as heuristic.

use vstd::prelude::*;

use super::error::SimulationError;
use super::{manhattan, manhattan_distance, Position, World};

verus! {

/// The coordinates of the cell next to `p` on side `k`, counting north,
/// east, south, west from zero.
pub open spec fn neighbor_coordinates(p: Position, k: int) -> (int, int) {
    if k == 0 {
        (p.x as int, p.y - 1)
    } else if k == 1 {
        (p.x + 1, p.y as int)
    } else if k == 2 {
        (p.x as int, p.y + 1)
    } else {
        (p.x - 1, p.y as int)
    }
}

/// The cell lies on the grid and is not ignored.
pub open spec fn is_open_cell(p: Position, ignored: Seq<Position>, width: i32, height: i32) -> bool {
    0 <= p.x < width && 0 <= p.y < height && !ignored.contains(p)
}

/// Side `k` of `p` holds the open cell `q`.
pub open spec fn is_open_neighbor(
    p: Position,
    k: int,
    q: Position,
    ignored: Seq<Position>,
    width: i32,
    height: i32,
) -> bool {
    0 <= k < 4 && neighbor_coordinates(p, k) == (q.x as int, q.y as int) && is_open_cell(
        q,
        ignored,
        width,
        height,
    )
}

/// The open neighbours of `p` on the sides from `k` on, each with the cost
/// of the move to it.
pub open spec fn open_neighbors_from(
    p: Position,
    ignored: Seq<Position>,
    width: i32,
    height: i32,
    k: int,
) -> Seq<(Position, i64)>
    decreases 4 - k,
{
    if k < 0 || k >= 4 {
        Seq::empty()
    } else {
        let (x, y) = neighbor_coordinates(p, k);
        let q = Position { x: x as i32, y: y as i32 };
        let rest = open_neighbors_from(p, ignored, width, height, k + 1);
        if 0 <= x < width && 0 <= y < height && !ignored.contains(q) {
            seq![(q, 1i64)] + rest
        } else {
            rest
        }
    }
}

/// The moves that leave `p`: its open neighbours in the order north, east,
/// south, west, each at cost one.
pub open spec fn open_neighbors(p: Position, ignored: Seq<Position>, width: i32, height: i32) -> Seq<
    (Position, i64),
> {
    open_neighbors_from(p, ignored, width, height, 0)
}

/// One move leads from `p` to `q`.
pub open spec fn is_move(p: Position, q: Position, ignored: Seq<Position>, width: i32, height: i32) -> bool {
    exists|k: int| #[trigger] is_open_neighbor(p, k, q, ignored, width, height)
}

/// `path` leads from `start` to `goal` by moves.
pub open spec fn is_route(
    path: Seq<Position>,
    start: Position,
    goal: Position,
    ignored: Seq<Position>,
    width: i32,
    height: i32,
) -> bool {
    &&& path.len() >= 1
    &&& path[0] == start
    &&& path.last() == goal
    &&& forall|i: int|
        1 <= i < path.len() ==> is_move(#[trigger] path[i - 1], path[i], ignored, width, height)
}

/// Some path leads from `start` to `goal`.
pub open spec fn reachable(
    start: Position,
    goal: Position,
    ignored: Seq<Position>,
    width: i32,
    height: i32,
) -> bool {
    exists|path: Seq<Position>| is_route(path, start, goal, ignored, width, height)
}

/// Whether `k` is a side and the position's neighbour on it is an open cell,
/// and that cell.
fn open_neighbor(p: &Position, k: usize, ignored: &Vec<Position>, width: i32, height: i32) -> (r:
    Option<Position>)
    requires
        k < 4,
    ensures
        match r {
            Some(q) => is_open_neighbor(*p, k as int, q, ignored@, width, height),
            None => forall|q: Position| !is_open_neighbor(*p, k as int, q, ignored@, width, height),
        },
{
    let px: i64 = p.x as i64;
    let py: i64 = p.y as i64;
    let (x, y): (i64, i64) = if k == 0 {
        (px, py - 1)
    } else if k == 1 {
        (px + 1, py)
    } else if k == 2 {
        (px, py + 1)
    } else {
        (px - 1, py)
    };
    if 0 <= x && x < width as i64 && 0 <= y && y < height as i64 {
        let q = Position { x: x as i32, y: y as i32 };
        let mut i: usize = 0;
        while i < ignored.len()
            invariant
                i <= ignored.len(),
                k < 4,
                neighbor_coordinates(*p, k as int) == (q.x as int, q.y as int),
                0 <= q.x < width,
                0 <= q.y < height,
                forall|j: int| 0 <= j < i ==> ignored[j] != q,
            decreases ignored.len() - i,
        {
            if ignored[i].x == q.x && ignored[i].y == q.y {
                assert(ignored@[i as int] == q);
                assert forall|other: Position| !is_open_neighbor(
                    *p,
                    k as int,
                    other,
                    ignored@,
                    width,
                    height,
                ) by {
                    if neighbor_coordinates(*p, k as int) == (other.x as int, other.y as int) {
                        assert(other == q);
                    }
                }
                return None;
            }
            i += 1;
        }
        Some(q)
    } else {
        None
    }
}

/// Lists the open neighbours of a position, each with the cost of the move.
pub fn successors(p: &Position, ignored: &Vec<Position>, width: i32, height: i32) -> (moves: Vec<
    (Position, i64),
>)
    ensures
        moves@ == open_neighbors(*p, ignored@, width, height),
{
    let mut moves: Vec<(Position, i64)> = Vec::new();
    let mut k: usize = 4;
    while k > 0
        invariant
            k <= 4,
            moves@ == open_neighbors_from(*p, ignored@, width, height, k as int),
        decreases k,
    {
        k -= 1;
        match open_neighbor(p, k, ignored, width, height) {
            Some(q) => {
                moves.insert(0, (q, 1));
                assert(moves@ =~= seq![(q, 1i64)] + open_neighbors_from(
                    *p,
                    ignored@,
                    width,
                    height,
                    k + 1,
                ));
            },
            None => {
                let ghost (x, y) = neighbor_coordinates(*p, k as int);
                let ghost q = Position { x: x as i32, y: y as i32 };
                assert(!is_open_neighbor(*p, k as int, q, ignored@, width, height));
            },
        }
    }
    moves
}

/// Whether the position is the goal.
pub fn is_goal(p: &Position, goal: &Position) -> (r: bool)
    ensures
        r == (*p == *goal),
{
    p.x == goal.x && p.y == goal.y
}

/// The path that the A* search of the `pathfinding` crate returns, with its
/// cost: a function of where the search starts, of the goal and of the
/// cells that are open.
pub uninterp spec fn astar_route(
    start: Position,
    goal: Position,
    ignored: Seq<Position>,
    width: i32,
    height: i32,
) -> Option<(Seq<Position>, i64)>;

/// Calls `pathfinding::directed::astar::astar` from `start`, with
/// [`successors`] for the moves, the Manhattan distance to `goal` as the
/// heuristic and [`is_goal`] as the test for success.
///
/// Trusted: what comes back is the value named [`astar_route`]. A path that
/// comes back starts at `start`, ends at `goal`, goes by moves that
/// `successors` lists, costs one per move, and is no longer than any other
/// such path. Nothing comes back only where there is no such path.
#[verifier::external_body]
fn astar_search(start: &Position, goal: &Position, ignored: &Vec<Position>, width: i32, height: i32) -> (found:
    Option<(Vec<Position>, i64)>)
    ensures
        astar_route(*start, *goal, ignored@, width, height) == match found {
            Some((path, cost)) => Some((path@, cost)),
            None => None,
        },
        found matches Some((path, cost)) ==> is_route(path@, *start, *goal, ignored@, width, height)
            && cost == path@.len() - 1,
        found matches Some((path, cost)) ==> forall|other: Seq<Position>|
            is_route(other, *start, *goal, ignored@, width, height) ==> path@.len() <= other.len(),
        found is None ==> !reachable(*start, *goal, ignored@, width, height),
{
    ::pathfinding::directed::astar::astar(
        start,
        |p| successors(p, ignored, width, height),
        |p| manhattan_distance(p, goal),
        |p| is_goal(p, goal),
    )
}

/// What the caller of a search gets for what the search found: the cost of
/// the whole path and its second position, the next to step on. A path that
/// ends where it starts gives cost 1 and the start itself: to the caller a
/// cost of 1 means that the goal is within reach.
pub open spec fn next_step_of(found: Option<(Seq<Position>, i64)>) -> Result<
    (i64, Position),
    SimulationError,
> {
    match found {
        None => Err(SimulationError::PathUnreachable),
        Some((path, cost)) => if path.len() == 1 {
            Ok((1i64, path[0]))
        } else {
            Ok((cost, path[1]))
        },
    }
}

/// `path` leads from `start` to `goal`, and no path that does is shorter.
pub open spec fn is_shortest_route(
    path: Seq<Position>,
    start: Position,
    goal: Position,
    ignored: Seq<Position>,
    width: i32,
    height: i32,
) -> bool {
    &&& is_route(path, start, goal, ignored, width, height)
    &&& forall|other: Seq<Position>|
        is_route(other, start, goal, ignored, width, height) ==> path.len() <= other.len()
}

/// A move ends on an open cell next to the one it leaves.
pub proof fn lemma_move_is_adjacent(
    p: Position,
    q: Position,
    ignored: Seq<Position>,
    width: i32,
    height: i32,
)
    requires
        is_move(p, q, ignored, width, height),
    ensures
        manhattan(p, q) == 1,
        is_open_cell(q, ignored, width, height),
{
    let k = choose|k: int| #[trigger] is_open_neighbor(p, k, q, ignored, width, height);
    assert(is_open_neighbor(p, k, q, ignored, width, height));
}

/// The goal is within reach of `start`: it is the cell itself or an open
/// cell next to it.
pub open spec fn within_reach(
    start: Position,
    goal: Position,
    ignored: Seq<Position>,
    width: i32,
    height: i32,
) -> bool {
    start == goal || is_move(start, goal, ignored, width, height)
}

/// A move that is open with some cells ignored is open with none ignored.
pub proof fn lemma_move_without_ignored(
    p: Position,
    q: Position,
    ignored: Seq<Position>,
    width: i32,
    height: i32,
)
    requires
        is_move(p, q, ignored, width, height),
    ensures
        is_move(p, q, Seq::empty(), width, height),
{
    let k = choose|k: int| #[trigger] is_open_neighbor(p, k, q, ignored, width, height);
    assert(is_open_neighbor(p, k, q, Seq::empty(), width, height));
}

/// A path takes at least as many moves as the Manhattan distance of its
/// ends: the distance never overestimates the cost that is left.
pub proof fn lemma_route_is_no_shorter_than_the_distance(
    path: Seq<Position>,
    start: Position,
    goal: Position,
    ignored: Seq<Position>,
    width: i32,
    height: i32,
)
    requires
        is_route(path, start, goal, ignored, width, height),
    ensures
        path.len() - 1 >= manhattan(start, goal),
    decreases path.len(),
{
    if path.len() > 1 {
        let shorter = path.drop_last();
        let last = path.len() - 1;
        assert(is_move(path[last - 1], path[last], ignored, width, height));
        lemma_move_is_adjacent(path[last - 1], path[last], ignored, width, height);
        assert forall|i: int| 1 <= i < shorter.len() implies is_move(
            #[trigger] shorter[i - 1],
            shorter[i],
            ignored,
            width,
            height,
        ) by {
            assert(is_move(path[i - 1], path[i], ignored, width, height));
        }
        lemma_route_is_no_shorter_than_the_distance(
            shorter,
            start,
            path[last - 1],
            ignored,
            width,
            height,
        );
    }
}

/// What is left of a path after its first move is a path from its second
/// position.
pub proof fn lemma_rest_of_route(
    path: Seq<Position>,
    start: Position,
    goal: Position,
    ignored: Seq<Position>,
    width: i32,
    height: i32,
)
    requires
        is_route(path, start, goal, ignored, width, height),
        path.len() >= 2,
    ensures
        is_route(path.skip(1), path[1], goal, ignored, width, height),
{
    let rest = path.skip(1);
    assert forall|i: int| 1 <= i < rest.len() implies is_move(
        #[trigger] rest[i - 1],
        rest[i],
        ignored,
        width,
        height,
    ) by {
        assert(is_move(path[i + 1 - 1], path[i + 1], ignored, width, height));
    }
}

/// On a grid with no cell ignored a path leads from every cell to every
/// other in as many moves as their Manhattan distance.
pub proof fn lemma_straight_route(start: Position, goal: Position, width: i32, height: i32) -> (path:
    Seq<Position>)
    requires
        0 <= start.x < width,
        0 <= start.y < height,
        0 <= goal.x < width,
        0 <= goal.y < height,
    ensures
        is_route(path, start, goal, Seq::empty(), width, height),
        path.len() == manhattan(start, goal) + 1,
    decreases manhattan(start, goal),
{
    if start == goal {
        seq![start]
    } else {
        let (before, k): (Position, int) = if goal.x > start.x {
            (Position { x: (goal.x - 1) as i32, y: goal.y }, 1)
        } else if goal.x < start.x {
            (Position { x: (goal.x + 1) as i32, y: goal.y }, 3)
        } else if goal.y > start.y {
            (Position { x: goal.x, y: (goal.y - 1) as i32 }, 2)
        } else {
            (Position { x: goal.x, y: (goal.y + 1) as i32 }, 0)
        };
        let shorter = lemma_straight_route(start, before, width, height);
        let path = shorter.push(goal);
        assert(is_open_neighbor(before, k, goal, Seq::empty(), width, height));
        assert(is_move(before, goal, Seq::empty(), width, height));
        assert forall|i: int| 1 <= i < path.len() implies is_move(
            #[trigger] path[i - 1],
            path[i],
            Seq::empty(),
            width,
            height,
        ) by {
            if i < shorter.len() {
                assert(is_move(shorter[i - 1], shorter[i], Seq::empty(), width, height));
            }
        }
        path
    }
}

/// Picks out of what a search found the cost and the next step.
pub fn next_step(found: Option<(Vec<Position>, i64)>) -> (r: Result<(i64, Position), SimulationError>)
    requires
        found matches Some((path, _)) ==> path@.len() >= 1,
    ensures
        r == next_step_of(
            match found {
                Some((path, cost)) => Some((path@, cost)),
                None => None,
            },
        ),
{
    match found {
        Some((path, cost)) => {
            if path.len() == 1 {
                Ok((1, path[0]))
            } else {
                Ok((cost, path[1]))
            }
        },
        None => Err(SimulationError::PathUnreachable),
    }
}

/// Finds a shortest path from `cur_pos` to `goal` over the cells of the
/// world's grid, the ignored ones left out, and returns its cost and the
/// next position on it.
///
/// The search fails exactly where no path leads to the goal. From a position
/// to itself it gives cost 1 and that position; to any other goal the next
/// step is a move away from the start, so that from a start on the grid it
/// never leaves the grid. The cost is 1 exactly where the goal is within
/// reach. It is never below the Manhattan distance to the goal, and equals
/// it where no cell is ignored and start and goal lie on the grid; and the
/// next step is one move closer to the goal than the start.
pub fn a_star_pathfind(
    cur_pos: &Position,
    goal: &Position,
    ignored_position: &Vec<Position>,
    world: &World,
) -> (r: Result<(i64, Position), SimulationError>)
    ensures
        r == next_step_of(
            astar_route(*cur_pos, *goal, ignored_position@, world@.width, world@.height),
        ),
        r is Ok <==> reachable(*cur_pos, *goal, ignored_position@, world@.width, world@.height),
        astar_route(*cur_pos, *goal, ignored_position@, world@.width, world@.height) matches Some(
            (path, cost),
        ) ==> cost == path.len() - 1 && is_shortest_route(
            path,
            *cur_pos,
            *goal,
            ignored_position@,
            world@.width,
            world@.height,
        ),
        *cur_pos == *goal ==> r == Ok::<(i64, Position), SimulationError>((1i64, *cur_pos)),
        r matches Ok((cost, step)) ==> cost >= 1 && (step == *cur_pos || is_move(
            *cur_pos,
            step,
            ignored_position@,
            world@.width,
            world@.height,
        )),
        r matches Ok((_, step)) ==> (world@.in_grid(*cur_pos) ==> world@.in_grid(step)),
        *cur_pos != *goal ==> (r matches Ok((cost, step)) ==> is_move(
            *cur_pos,
            step,
            ignored_position@,
            world@.width,
            world@.height,
        ) && manhattan(*cur_pos, step) == 1 && reachable(
            step,
            *goal,
            ignored_position@,
            world@.width,
            world@.height,
        )),
        r matches Ok((cost, _)) ==> (cost == 1 <==> within_reach(
            *cur_pos,
            *goal,
            ignored_position@,
            world@.width,
            world@.height,
        )),
        within_reach(*cur_pos, *goal, ignored_position@, world@.width, world@.height) ==> r is Ok,
        r matches Ok((cost, _)) ==> cost >= manhattan(*cur_pos, *goal),
        ignored_position@.len() == 0 && world@.in_grid(*cur_pos) && world@.in_grid(*goal)
            && *cur_pos != *goal ==> (r matches Ok((cost, step)) && cost == manhattan(
            *cur_pos,
            *goal,
        ) && manhattan(step, *goal) == cost - 1),
{
    let width: i32 = *world.get_width();
    let height: i32 = *world.get_height();
    let found = astar_search(cur_pos, goal, ignored_position, width, height);
    proof {
        if *cur_pos == *goal {
            assert(is_route(seq![*cur_pos], *cur_pos, *goal, ignored_position@, width, height));
        }
        if is_move(*cur_pos, *goal, ignored_position@, width, height) {
            assert(is_route(
                seq![*cur_pos, *goal],
                *cur_pos,
                *goal,
                ignored_position@,
                width,
                height,
            ));
        }
        if found is Some {
            let pair = found->0;
            let path = pair.0@;
            assert(is_route(path, *cur_pos, *goal, ignored_position@, width, height));
            lemma_route_is_no_shorter_than_the_distance(
                path,
                *cur_pos,
                *goal,
                ignored_position@,
                width,
                height,
            );
            if path.len() > 1 {
                assert(is_move(path[1 - 1], path[1], ignored_position@, width, height));
                lemma_move_is_adjacent(path[0], path[1], ignored_position@, width, height);
                lemma_rest_of_route(path, *cur_pos, *goal, ignored_position@, width, height);
                lemma_route_is_no_shorter_than_the_distance(
                    path.skip(1),
                    path[1],
                    *goal,
                    ignored_position@,
                    width,
                    height,
                );
            }
            if is_move(*cur_pos, *goal, ignored_position@, width, height) {
                assert(is_route(
                    seq![*cur_pos, *goal],
                    *cur_pos,
                    *goal,
                    ignored_position@,
                    width,
                    height,
                ));
            }
        }
        if ignored_position@.len() == 0 && world@.in_grid(*cur_pos) && world@.in_grid(*goal) {
            let straight = lemma_straight_route(*cur_pos, *goal, width, height);
            assert(ignored_position@ =~= Seq::empty());
        }
    }
    next_step(found)
}

} // verus!
