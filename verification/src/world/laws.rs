//! What holds of the transitions and of a tick, whatever is drawn.

use vstd::prelude::*;

use super::eater::{
    clamped_level, counted, first_free, is_free_neighbor, pursuit, Eater, EaterGoal, Pursuit,
    FOOD_VALUE, PATH_ATTEMPTS,
};
use super::entity::{cardinal_order, is_shuffled, Draw, Entity};
use super::tick::{is_tick, marked, swap_removed, tick, tick_prefix};
use super::{manhattan, Direction, Position, WorldView};

verus! {

/// A shuffled order holds four directions, each of the four among them.
pub proof fn lemma_shuffle_holds_every_direction(order: Seq<Direction>)
    requires
        is_shuffled(order),
    ensures
        order.len() == 4,
        forall|direction: Direction| order.contains(direction),
{
    let cardinal = cardinal_order();
    order.to_multiset_ensures();
    cardinal.to_multiset_ensures();
    assert forall|direction: Direction| order.contains(direction) by {
        assert(cardinal[0] == Direction::Up);
        assert(cardinal[1] == Direction::Right);
        assert(cardinal[2] == Direction::Down);
        assert(cardinal[3] == Direction::Left);
        assert(cardinal.contains(direction));
        assert(cardinal.to_multiset().count(direction) > 0);
        assert(order.to_multiset().count(direction) > 0);
    }
}

/// One step on the grid of a well-formed world stays on the grid, and ends
/// on the cell it starts from or on one next to it.
pub proof fn lemma_step_stays_on_grid(world: WorldView, p: Position, direction: Direction)
    requires
        world.wf(),
        world.in_grid(p),
    ensures
        world.in_grid(world.step_from(p, direction)),
        manhattan(p, world.step_from(p, direction)) <= 1,
{
}

/// One step ends on the cell it starts from or on one next to it, on the
/// grid and off it.
pub proof fn lemma_step_is_short(world: WorldView, p: Position, direction: Direction)
    ensures
        manhattan(p, world.step_from(p, direction)) <= 1,
{
}

/// The cell that the search for a free neighbouring cell finds is one step
/// away in one of the directions tried and is a free neighbouring cell, and
/// no direction tried before it leads to one. Where it finds none, no
/// direction tried leads to one.
pub proof fn lemma_first_free(world: WorldView, p: Position, order: Seq<Direction>, k: int)
    requires
        0 <= k <= order.len(),
    ensures
        match first_free(world, p, order, k) {
            Some(cell) => exists|j: int|
                {
                    &&& k <= j < order.len()
                    &&& cell == world.step_from(p, #[trigger] order[j])
                    &&& is_free_neighbor(world, p, cell)
                    &&& forall|m: int|
                        k <= m < j ==> !is_free_neighbor(
                            world,
                            p,
                            world.step_from(p, #[trigger] order[m]),
                        )
                },
            None => forall|j: int|
                k <= j < order.len() ==> !is_free_neighbor(
                    world,
                    p,
                    world.step_from(p, #[trigger] order[j]),
                ),
        },
    decreases order.len() - k,
{
    if k < order.len() {
        let cell = world.step_from(p, order[k]);
        if is_free_neighbor(world, p, cell) {
            assert(cell == world.step_from(p, order[k]));
        } else {
            lemma_first_free(world, p, order, k + 1);
            if let Some(found) = first_free(world, p, order, k + 1) {
                let j = choose|j: int|
                    {
                        &&& k + 1 <= j < order.len()
                        &&& found == world.step_from(p, #[trigger] order[j])
                        &&& is_free_neighbor(world, p, found)
                        &&& forall|m: int|
                            k + 1 <= m < j ==> !is_free_neighbor(
                                world,
                                p,
                                world.step_from(p, #[trigger] order[m]),
                            )
                    };
                assert(found == world.step_from(p, order[j]));
            }
        }
    }
}

/// With a shuffled order the search for a free neighbouring cell fails
/// exactly where none of the four directions leads to one: an eater that
/// wanders remains in place, and one that would reproduce has no offspring,
/// only if it is surrounded. The cell that the search finds is never the
/// one it starts from.
pub proof fn lemma_surrounded(world: WorldView, p: Position, order: Seq<Direction>)
    requires
        is_shuffled(order),
    ensures
        first_free(world, p, order, 0) is None <==> forall|direction: Direction|
            !is_free_neighbor(world, p, #[trigger] world.step_from(p, direction)),
        first_free(world, p, order, 0) matches Some(cell) ==> cell != p && !world.occupied(cell)
            && exists|direction: Direction| cell == world.step_from(p, direction),
{
    lemma_shuffle_holds_every_direction(order);
    lemma_first_free(world, p, order, 0);
    if first_free(world, p, order, 0) is None {
        assert forall|direction: Direction|
            !is_free_neighbor(world, p, #[trigger] world.step_from(p, direction)) by {
            assert(order.contains(direction));
            let j = choose|j: int| 0 <= j < order.len() && order[j] == direction;
            assert(!is_free_neighbor(world, p, world.step_from(p, order[j])));
        }
    }
}

/// A way to the food that goes on with a step leads to a cell that is free
/// of live entities.
pub proof fn lemma_pursuit_moves_to_free_cell(
    world: WorldView,
    start: Position,
    target: Position,
    ignored: Seq<Position>,
    attempts: nat,
)
    ensures
        pursuit(world, start, target, ignored, attempts) matches Pursuit::MoveTo(cell)
            ==> !world.occupied(cell),
    decreases attempts,
{
    if attempts > 0 {
        match super::garden_pathfinding::next_step_of(
            super::garden_pathfinding::astar_route(
                start,
                target,
                ignored,
                world.width,
                world.height,
            ),
        ) {
            Err(_) => {},
            Ok((cost, step)) => {
                if cost != 1 && world.occupied(step) {
                    lemma_pursuit_moves_to_free_cell(
                        world,
                        start,
                        target,
                        ignored.push(step),
                        (attempts - 1) as nat,
                    );
                }
            },
        }
    }
}

/// The occupancy check is honoured: what a transition spawns, it puts on a
/// cell that no live entity of the world it saw stands on; and an entity
/// that it moves, it moves to such a cell.
pub proof fn lemma_transition_honors_occupancy(entity: Entity, world: WorldView, draw: Draw)
    ensures
        entity.transition(world, draw) matches Ok((next, spawned, _)) ==> {
            &&& spawned matches Some(new_entity) ==> !world.occupied(new_entity.position())
            &&& next.position() == entity.position() || !world.occupied(next.position())
        },
{
    if let Entity::Eater(eater) = entity {
        lemma_first_free(world, eater.position, draw.order, 0);
        if let EaterGoal::GetFood(food) = eater.aged().goal(world) {
            lemma_pursuit_moves_to_free_cell(
                world,
                eater.position,
                world.entities[food as int].position(),
                Seq::empty(),
                PATH_ATTEMPTS as nat,
            );
        }
    }
}

/// Where some live entity of the world is `entity`, some index is the first
/// at which one is.
pub proof fn lemma_some_index_holds_first(world: WorldView, entity: Entity, i: int)
    requires
        world.holds_live(entity, i),
    ensures
        exists|j: int| 0 <= j <= i && world.holds_first(entity, j),
    decreases i,
{
    if exists|j: int| 0 <= j < i && #[trigger] world.holds_live(entity, j) {
        let j = choose|j: int| 0 <= j < i && #[trigger] world.holds_live(entity, j);
        lemma_some_index_holds_first(world, entity, j);
    } else {
        assert(world.holds_first(entity, i));
    }
}

/// Where the live entity at index `i` is `entity`, the first index at which
/// a live entity is `entity` is found, and it is not beyond `i`.
pub proof fn lemma_index_of_finds(world: WorldView, entity: Entity, i: int)
    requires
        world.holds_live(entity, i),
        i <= usize::MAX,
    ensures
        world.index_of(entity) matches Some(index) && index <= i && world.holds_first(
            entity,
            index as int,
        ),
{
    lemma_some_index_holds_first(world, entity, i);
    let first = choose|j: int| 0 <= j <= i && world.holds_first(entity, j);
    let chosen = choose|j: int| world.holds_first(entity, j);
    assert(world.holds_first(entity, chosen));
    assert(chosen == first) by {
        if chosen < first {
            assert(world.holds_live(entity, chosen));
        } else if first < chosen {
            assert(world.holds_live(entity, first));
        }
    }
}

/// The transition of a live entity of the world it sees does not fail: an
/// eater that dies finds itself.
pub proof fn lemma_transition_of_member_succeeds(world: WorldView, i: int, draw: Draw)
    requires
        world.is_live(i),
    ensures
        world.entities[i].transition(world, draw) is Ok,
{
    if let Entity::Eater(eater) = world.entities[i] {
        assert(world.holds_live(Entity::Eater(eater), i));
        if !exists|j: int| world.holds_first(Entity::Eater(eater), j) {
            lemma_some_index_holds_first(world, Entity::Eater(eater), i);
        }
    }
}

/// Among the first `k` entities, where any of them is a live piece of food,
/// one is nearest to the eater and the first such.
pub proof fn lemma_closest_food_among(eater: Eater, world: WorldView, k: int) -> (best: Option<int>)
    requires
        0 <= k <= world.entities.len(),
    ensures
        best is None ==> forall|j: int| 0 <= j < k ==> !world.is_visible_food(j),
        best matches Some(b) ==> {
            &&& 0 <= b < k
            &&& world.is_visible_food(b)
            &&& forall|j: int|
                0 <= j < k && #[trigger] world.is_visible_food(j) ==> {
                    &&& manhattan(world.entities[b].position(), eater.position) <= manhattan(
                        world.entities[j].position(),
                        eater.position,
                    )
                    &&& j < b ==> manhattan(world.entities[b].position(), eater.position)
                        < manhattan(world.entities[j].position(), eater.position)
                }
        },
    decreases k,
{
    if k == 0 {
        None
    } else {
        let before = lemma_closest_food_among(eater, world, k - 1);
        let i = k - 1;
        if !world.is_visible_food(i) {
            before
        } else {
            match before {
                None => Some(i),
                Some(b) => if manhattan(world.entities[i].position(), eater.position) < manhattan(
                    world.entities[b].position(),
                    eater.position,
                ) {
                    Some(i)
                } else {
                    before
                },
            }
        }
    }
}

/// The food that an eater sets out for is a live piece of food of the
/// world, the nearest to the eater and the first such.
pub proof fn lemma_goal_food_is_closest(eater: Eater, world: WorldView)
    requires
        world.entities.len() <= usize::MAX,
    ensures
        eater.goal(world) matches EaterGoal::GetFood(food) ==> eater.is_closest_food(
            world,
            food as int,
        ) && food < world.entities.len(),
{
    if eater.goal(world) is GetFood {
        let best = lemma_closest_food_among(eater, world, world.entities.len() as int);
        assert(best is Some) by {
            if best is None {
                assert forall|i: int| !world.is_visible_food(i) by {
                    if world.is_visible_food(i) {
                        assert(0 <= i < world.entities.len());
                    }
                }
            }
        }
        assert(eater.is_closest_food(world, best->0));
    }
}

/// What a transition marks for removal is a live entity of the world: the
/// piece of food that an eater eats, or the eater itself that dies. Nothing
/// else ever marks anything.
pub proof fn lemma_transition_marks_member(entity: Entity, world: WorldView, draw: Draw)
    requires
        world.entities.len() <= usize::MAX,
    ensures
        entity.transition(world, draw) matches Ok((_, _, Some(index))) ==> {
            &&& world.is_live(index as int)
            &&& entity is Eater
            &&& world.entities[index as int] is Food || world.entities[index as int] == entity
        },
{
    if let Entity::Eater(eater) = entity {
        lemma_goal_food_is_closest(eater.aged(), world);
        if eater.aged().goal(world) is Die {
            if exists|i: int| world.holds_first(entity, i) {
                let i = choose|i: int| world.holds_first(entity, i);
                assert(world.holds_live(entity, i));
            }
        }
    }
}

/// The account of an eater's tick. It ages by one tick. Its timer starts
/// anew exactly when it has offspring, and runs on otherwise. Its hunger
/// grows by one, and is stilled by what a piece of food is worth exactly
/// when the tick marks a piece of food. It marks nothing but the food it
/// eats or itself; it stays in place when it eats, dies or reproduces; and
/// its offspring is a new eater on a free neighbouring cell.
pub proof fn lemma_eater_step_accounts(eater: Eater, world: WorldView, order: Seq<Direction>)
    requires
        world.entities.len() <= usize::MAX,
    ensures
        eater.step(world, order) matches Ok((next, spawned, removed)) ==> {
            &&& next matches Entity::Eater(after) && {
                &&& after.age == counted(eater.age)
                &&& after.hunger_threshold == eater.hunger_threshold
                &&& after.last_reproduced == (if spawned is Some {
                    0
                } else {
                    counted(eater.last_reproduced)
                })
                &&& after.hunger == (if removed matches Some(index)
                    && world.entities[index as int] is Food {
                    clamped_level(clamped_level(eater.hunger, 1), (-FOOD_VALUE) as i8)
                } else {
                    clamped_level(eater.hunger, 1)
                })
                &&& after.hunger >= 0
                &&& (removed is Some || spawned is Some) ==> after.position == eater.position
            }
            &&& removed matches Some(index) ==> world.is_live(index as int) && (
            world.entities[index as int] is Food || world.entities[index as int] == Entity::Eater(
                eater,
            ))
            &&& spawned matches Some(child) ==> child matches Entity::Eater(young) && young
                == Eater::fresh(young.position) && is_free_neighbor(
                world,
                eater.position,
                young.position,
            )
        },
        eater.step(world, order) is Err <==> eater.aged().goal(world) is Die && forall|i: int|
            !world.holds_live(Entity::Eater(eater), i),
{
    let entity = Entity::Eater(eater);
    lemma_goal_food_is_closest(eater.aged(), world);
    lemma_first_free(world, eater.position, order, 0);
    if eater.aged().goal(world) is Die {
        if exists|i: int| world.holds_first(entity, i) {
            let i = choose|i: int| world.holds_first(entity, i);
            assert(world.holds_live(entity, i));
        } else {
            assert forall|i: int| !world.holds_live(entity, i) by {
                if world.holds_live(entity, i) {
                    lemma_some_index_holds_first(world, entity, i);
                }
            }
        }
    }
}

/// The marks are in strictly falling order.
pub open spec fn is_falling(removed: Seq<usize>) -> bool {
    forall|k: int, l: int|
        0 <= k < l < removed.len() ==> (#[trigger] removed[k]) > (#[trigger] removed[l])
}

/// Marks in falling order stay in falling order when an index is marked,
/// and hold that index and what they held before, nothing else.
pub proof fn lemma_marked_keeps_order(removed: Seq<usize>, index: usize)
    requires
        is_falling(removed),
    ensures
        is_falling(marked(removed, index)),
        forall|x: usize|
            #![trigger marked(removed, index).contains(x)]
            marked(removed, index).contains(x) <==> (removed.contains(x) || x == index),
    decreases removed.len(),
{
    let after = marked(removed, index);
    if removed.len() == 0 || removed[0] < index {
        assert(after =~= seq![index] + removed);
        assert forall|x: usize| after.contains(x) <==> (removed.contains(x) || x == index) by {
            if removed.contains(x) {
                let k = choose|k: int| 0 <= k < removed.len() && removed[k] == x;
                assert(after[k + 1] == x);
            }
            if x == index {
                assert(after[0] == x);
            }
        }
        assert forall|k: int, l: int| 0 <= k < l < after.len() implies (#[trigger] after[k]) > (
        #[trigger] after[l]) by {
            if k == 0 {
                assert(after[l] == removed[l - 1]);
                if l - 1 > 0 {
                    assert(removed[0] > removed[l - 1]);
                }
            } else {
                assert(after[k] == removed[k - 1] && after[l] == removed[l - 1]);
            }
        }
    } else if removed[0] == index {
        assert(removed.contains(index));
    } else {
        let rest = removed.drop_first();
        assert forall|k: int, l: int| 0 <= k < l < rest.len() implies (#[trigger] rest[k]) > (
        #[trigger] rest[l]) by {
            assert(rest[k] == removed[k + 1] && rest[l] == removed[l + 1]);
        }
        lemma_marked_keeps_order(rest, index);
        let inner = marked(rest, index);
        assert(after =~= seq![removed[0]] + inner);
        assert forall|x: usize| after.contains(x) <==> (removed.contains(x) || x == index) by {
            if after.contains(x) {
                let k = choose|k: int| 0 <= k < after.len() && after[k] == x;
                if k > 0 {
                    assert(inner[k - 1] == x);
                    assert(inner.contains(x));
                    if rest.contains(x) {
                        let m = choose|m: int| 0 <= m < rest.len() && rest[m] == x;
                        assert(removed[m + 1] == x);
                    }
                } else {
                    assert(removed[0] == x);
                }
            }
            if removed.contains(x) {
                let m = choose|m: int| 0 <= m < removed.len() && removed[m] == x;
                if m == 0 {
                    assert(after[0] == x);
                } else {
                    assert(rest[m - 1] == x);
                    assert(rest.contains(x));
                    assert(inner.contains(x));
                    let k = choose|k: int| 0 <= k < inner.len() && inner[k] == x;
                    assert(after[k + 1] == x);
                }
            }
            if x == index {
                assert(inner.contains(x));
                let k = choose|k: int| 0 <= k < inner.len() && inner[k] == x;
                assert(after[k + 1] == x);
            }
        }
        assert forall|k: int, l: int| 0 <= k < l < after.len() implies (#[trigger] after[k]) > (
        #[trigger] after[l]) by {
            if k == 0 {
                let x = after[l];
                assert(inner[l - 1] == x);
                assert(inner.contains(x));
                if rest.contains(x) {
                    let m = choose|m: int| 0 <= m < rest.len() && rest[m] == x;
                    assert(removed[m + 1] == x);
                    assert(removed[0] > removed[m + 1]);
                }
            } else {
                assert(after[k] == inner[k - 1] && after[l] == inner[l - 1]);
            }
        }
    }
}

/// Throughout a tick of a well-formed world the marks stay indices of the
/// collection, in strictly falling order, and every entity that has had its
/// turn has its next state.
pub proof fn lemma_tick_keeps_marks_in_order(world: WorldView, draws: Seq<Draw>, k: nat)
    requires
        world.wf(),
        world.entities.len() <= usize::MAX,
        k <= world.entities.len(),
    ensures
        (WorldView { removed: tick_prefix(world, draws, k).removed, ..world }).wf(),
        tick_prefix(world, draws, k).next.len() == k,
    decreases k,
{
    if k > 0 {
        let i = (k - 1) as nat;
        lemma_tick_keeps_marks_in_order(world, draws, i);
        let before = tick_prefix(world, draws, i);
        let seen = WorldView { removed: before.removed, ..world };
        lemma_transition_marks_member(world.entities[i as int], seen, draws[i as int]);
        if !before.removed.contains(i as usize) {
            if let Ok((_, _, Some(index))) = world.entities[i as int].transition(
                seen,
                draws[i as int],
            ) {
                lemma_marked_keeps_order(before.removed, index);
                let after = marked(before.removed, index);
                assert forall|m: int| 0 <= m < after.len() implies (#[trigger] after[m])
                    < world.entities.len() by {
                    assert(after.contains(after[m]));
                    if before.removed.contains(after[m]) {
                        let j = choose|j: int|
                            0 <= j < before.removed.len() && before.removed[j] == after[m];
                        assert(before.removed[j] < world.entities.len());
                    }
                }
            }
        }
    }
}

/// Removing the marked entities shortens the collection by the number of
/// marks, and leaves every entity in it that stood at an index without a
/// mark.
pub proof fn lemma_swap_removed(entities: Seq<Entity>, removed: Seq<usize>)
    requires
        is_falling(removed),
        forall|k: int| 0 <= k < removed.len() ==> (#[trigger] removed[k]) < entities.len(),
    ensures
        swap_removed(entities, removed).len() == entities.len() - removed.len(),
        forall|i: int|
            0 <= i < entities.len() && !removed.contains(i as usize) ==> swap_removed(
                entities,
                removed,
            ).contains(#[trigger] entities[i]),
    decreases removed.len(),
{
    if removed.len() == 0 {
        assert forall|i: int| 0 <= i < entities.len() implies swap_removed(
            entities,
            removed,
        ).contains(#[trigger] entities[i]) by {
            assert(swap_removed(entities, removed)[i] == entities[i]);
        }
    } else {
        let first = removed[0] as int;
        let rest = removed.drop_first();
        let shorter = entities.update(first, entities.last()).drop_last();
        assert forall|k: int, l: int| 0 <= k < l < rest.len() implies (#[trigger] rest[k]) > (
        #[trigger] rest[l]) by {
            assert(rest[k] == removed[k + 1] && rest[l] == removed[l + 1]);
        }
        assert forall|k: int| 0 <= k < rest.len() implies (#[trigger] rest[k]) < shorter.len() by {
            assert(rest[k] == removed[k + 1]);
            assert(removed[0] > removed[k + 1]);
        }
        lemma_swap_removed(shorter, rest);
        assert forall|i: int|
            0 <= i < entities.len() && !removed.contains(i as usize) implies swap_removed(
            entities,
            removed,
        ).contains(#[trigger] entities[i]) by {
            assert(i != first) by {
                if i == first {
                    assert(removed[0] == i as usize);
                }
            }
            let j = if i == entities.len() - 1 {
                first
            } else {
                i
            };
            assert(0 <= j < shorter.len());
            assert(shorter[j] == entities[i]);
            assert(!rest.contains(j as usize)) by {
                if rest.contains(j as usize) {
                    let m = choose|m: int| 0 <= m < rest.len() && rest[m] == j as usize;
                    assert(removed[m + 1] == j as usize);
                    assert(removed[0] > removed[m + 1]);
                }
            }
        }
    }
}

/// After a tick of a well-formed world the collection holds as many
/// entities as before, less those marked, plus those spawned; and it holds
/// the next state of every entity that was not marked.
pub proof fn lemma_tick_removes_the_marked_only(world: WorldView, draws: Seq<Draw>)
    requires
        world.wf(),
        world.entities.len() <= usize::MAX,
    ensures
        ({
            let end = tick_prefix(world, draws, world.entities.len());
            let after = tick(world, draws);
            &&& after.wf()
            &&& after.entities.len() == world.entities.len() - end.removed.len()
                + end.spawned.len()
            &&& forall|i: int|
                0 <= i < world.entities.len() && !end.removed.contains(i as usize)
                    ==> after.entities.contains(#[trigger] end.next[i])
            &&& forall|j: int|
                0 <= j < end.spawned.len() ==> after.entities.contains(#[trigger] end.spawned[j])
        }),
{
    let end = tick_prefix(world, draws, world.entities.len());
    let after = tick(world, draws);
    lemma_tick_keeps_marks_in_order(world, draws, world.entities.len());
    let seen = WorldView { removed: end.removed, ..world };
    assert(seen.wf());
    assert forall|k: int, l: int| 0 <= k < l < end.removed.len() implies (#[trigger] end.removed[k])
        > (#[trigger] end.removed[l]) by {
        assert(seen.removed[k] > seen.removed[l]);
    }
    assert forall|k: int| 0 <= k < end.removed.len() implies (#[trigger] end.removed[k])
        < end.next.len() by {
        assert(seen.removed[k] < seen.entities.len());
    }
    lemma_swap_removed(end.next, end.removed);
    let kept = swap_removed(end.next, end.removed);
    assert forall|i: int|
        0 <= i < world.entities.len() && !end.removed.contains(
            i as usize,
        ) implies after.entities.contains(#[trigger] end.next[i]) by {
        assert(kept.contains(end.next[i]));
        let m = choose|m: int| 0 <= m < kept.len() && kept[m] == end.next[i];
        assert(after.entities[m] == end.next[i]);
    }
    assert forall|j: int| 0 <= j < end.spawned.len() implies after.entities.contains(
        #[trigger] end.spawned[j],
    ) by {
        assert(after.entities[kept.len() + j] == end.spawned[j]);
    }
}

/// The occupancy check is honoured in every turn of a tick. The entity
/// whose turn it is stays on its cell or moves to one that no live entity
/// stood on when the tick began, the marks made before its turn counted;
/// and what it spawns, it puts on such a cell.
pub proof fn lemma_turn_honors_occupancy(world: WorldView, draws: Seq<Draw>, i: nat)
    requires
        i < world.entities.len(),
    ensures
        ({
            let before = tick_prefix(world, draws, i);
            let after = tick_prefix(world, draws, (i + 1) as nat);
            let seen = WorldView { removed: before.removed, ..world };
            let next = after.next.last();
            &&& after.next == before.next.push(next)
            &&& next.position() == world.entities[i as int].position() || !seen.occupied(
                next.position(),
            )
            &&& after.spawned == before.spawned || {
                &&& after.spawned == before.spawned.push(after.spawned.last())
                &&& !seen.occupied(after.spawned.last().position())
            }
        }),
{
    let before = tick_prefix(world, draws, i);
    let seen = WorldView { removed: before.removed, ..world };
    lemma_transition_honors_occupancy(world.entities[i as int], seen, draws[i as int]);
}

/// `end` is what a run of ticks makes of `start`, each tick with the draws
/// of its round, all of them valid.
pub open spec fn is_run(start: WorldView, rounds: Seq<Seq<Draw>>, end: WorldView) -> bool
    decreases rounds.len(),
{
    if rounds.len() == 0 {
        end == start
    } else {
        let between = super::tick::tick(start, rounds[0]);
        is_tick(start, rounds[0], between) && is_run(between, rounds.drop_first(), end)
    }
}

/// What a world shows: the position and the colour of each entity, in the
/// order of the collection.
pub open spec fn shown(world: WorldView) -> Seq<(Position, Seq<char>)> {
    Seq::new(
        world.entities.len(),
        |i: int| (world.entities[i].position(), world.entities[i].color()),
    )
}

/// A tick is determined by the world before it and the draws: two ticks of
/// one world with the same draws end in the same world.
pub proof fn lemma_tick_is_deterministic(
    before: WorldView,
    draws: Seq<Draw>,
    one: WorldView,
    other: WorldView,
)
    requires
        is_tick(before, draws, one),
        is_tick(before, draws, other),
    ensures
        one == other,
{
}

/// Two runs that start from the same world and draw the same in every
/// round end in the same world, and show the same.
pub proof fn lemma_run_is_deterministic(
    start: WorldView,
    rounds: Seq<Seq<Draw>>,
    one: WorldView,
    other: WorldView,
)
    requires
        is_run(start, rounds, one),
        is_run(start, rounds, other),
    ensures
        one == other,
        shown(one) == shown(other),
    decreases rounds.len(),
{
    if rounds.len() > 0 {
        lemma_run_is_deterministic(
            super::tick::tick(start, rounds[0]),
            rounds.drop_first(),
            one,
            other,
        );
    }
}

} // verus!
