//! One tick of the world, as a function of the random choices drawn in it.

use vstd::prelude::*;

use super::entity::{valid_draw, Draw, Entity};
use super::WorldView;

verus! {

/// What a tick has gathered after some of the entities have had their turn.
pub struct TickState {
    /// The next states of the entities that have had their turn, by index.
    pub next: Seq<Entity>,
    /// The entities spawned so far, which join the world when the tick ends.
    pub spawned: Seq<Entity>,
    /// The indices marked for removal so far, largest first.
    pub removed: Seq<usize>,
}

/// The removal marks with one more index among them. The marks stay in
/// falling order, and an index that is marked already is not marked twice.
pub open spec fn marked(removed: Seq<usize>, index: usize) -> Seq<usize>
    decreases removed.len(),
{
    if removed.len() == 0 || removed[0] < index {
        seq![index] + removed
    } else if removed[0] == index {
        removed
    } else {
        seq![removed[0]] + marked(removed.drop_first(), index)
    }
}

/// The collection after the entity at each marked index, in the order of
/// the marks, has been replaced by the last one and the collection
/// shortened by one.
pub open spec fn swap_removed(entities: Seq<Entity>, removed: Seq<usize>) -> Seq<Entity>
    decreases removed.len(),
{
    if removed.len() == 0 {
        entities
    } else {
        swap_removed(
            entities.update(removed[0] as int, entities.last()).drop_last(),
            removed.drop_first(),
        )
    }
}

/// The state of a tick after the first `k` entities have had their turn.
///
/// Each entity in turn sees the entities as they were when the tick began,
/// and the removal marks made so far. One that is marked is passed over.
/// Of the others each gets its transition with its draw: its next state is
/// kept, what it spawns is set aside, and what it removes is marked. An
/// entity whose transition fails stays as it was.
pub open spec fn tick_prefix(world: WorldView, draws: Seq<Draw>, k: nat) -> TickState
    decreases k,
{
    if k == 0 {
        TickState { next: Seq::empty(), spawned: Seq::empty(), removed: world.removed }
    } else {
        let before = tick_prefix(world, draws, (k - 1) as nat);
        let i = k - 1;
        let seen = WorldView { removed: before.removed, ..world };
        if before.removed.contains(i as usize) {
            TickState { next: before.next.push(world.entities[i]), ..before }
        } else {
            match world.entities[i].transition(seen, draws[i]) {
                Ok((entity, spawned, removed)) => TickState {
                    next: before.next.push(entity),
                    spawned: match spawned {
                        Some(new_entity) => before.spawned.push(new_entity),
                        None => before.spawned,
                    },
                    removed: match removed {
                        Some(index) => marked(before.removed, index),
                        None => before.removed,
                    },
                },
                Err(_) => TickState { next: before.next.push(world.entities[i]), ..before },
            }
        }
    }
}

/// The world after one tick in which the entity at index `i` draws
/// `draws[i]`: every entity has had its turn, the marked ones are removed,
/// the spawned ones are appended, and no mark is left.
pub open spec fn tick(world: WorldView, draws: Seq<Draw>) -> WorldView {
    let end = tick_prefix(world, draws, world.entities.len());
    WorldView {
        entities: swap_removed(end.next, end.removed) + end.spawned,
        removed: Seq::empty(),
        ..world
    }
}

/// In a tick the entity at index `i` has its turn and draws from the
/// generator in it.
pub open spec fn turn_draws(world: WorldView, draws: Seq<Draw>, i: nat) -> bool {
    let before = tick_prefix(world, draws, i);
    !before.removed.contains(i as usize) && world.entities[i as int].draws(
        WorldView { removed: before.removed, ..world },
    )
}

/// In a tick one of the first `k` entities draws from the generator.
pub open spec fn some_turn_draws(world: WorldView, draws: Seq<Draw>, k: nat) -> bool {
    exists|i: nat| i < k && #[trigger] turn_draws(world, draws, i)
}

/// In a tick some entity draws from the generator.
pub open spec fn tick_draws(world: WorldView, draws: Seq<Draw>) -> bool {
    some_turn_draws(world, draws, world.entities.len())
}

/// `after` is what one tick makes of `before`, for the given draws, one for
/// each entity and each of them valid.
pub open spec fn is_tick(before: WorldView, draws: Seq<Draw>, after: WorldView) -> bool {
    &&& draws.len() == before.entities.len()
    &&& forall|i: int| 0 <= i < draws.len() ==> valid_draw(before, #[trigger] draws[i])
    &&& after == tick(before, draws)
}

/// The first `k` turns of a tick depend on the first `k` draws only.
pub proof fn lemma_tick_prefix_ignores_later_draws(
    world: WorldView,
    draws: Seq<Draw>,
    more: Seq<Draw>,
    k: nat,
)
    requires
        k <= draws.len() <= more.len(),
        forall|i: int| 0 <= i < draws.len() ==> draws[i] == more[i],
    ensures
        tick_prefix(world, draws, k) == tick_prefix(world, more, k),
    decreases k,
{
    if k > 0 {
        lemma_tick_prefix_ignores_later_draws(world, draws, more, (k - 1) as nat);
    }
}

/// Whether one of the first `k` entities draws depends on the draws before
/// the `k`-th only.
pub proof fn lemma_turns_ignore_later_draws(
    world: WorldView,
    draws: Seq<Draw>,
    more: Seq<Draw>,
    k: nat,
)
    requires
        k <= draws.len() <= more.len(),
        forall|i: int| 0 <= i < draws.len() ==> draws[i] == more[i],
    ensures
        some_turn_draws(world, draws, k) == some_turn_draws(world, more, k),
{
    assert forall|i: nat| i < k implies turn_draws(world, draws, i) == turn_draws(
        world,
        more,
        i,
    ) by {
        lemma_tick_prefix_ignores_later_draws(world, draws, more, i);
    }
    if some_turn_draws(world, draws, k) {
        let i = choose|i: nat| i < k && #[trigger] turn_draws(world, draws, i);
        assert(turn_draws(world, more, i));
    }
    if some_turn_draws(world, more, k) {
        let i = choose|i: nat| i < k && #[trigger] turn_draws(world, more, i);
        assert(turn_draws(world, draws, i));
    }
}

/// Where a new mark goes among marks in strictly falling order: in front of
/// the first mark that is not larger, unless that mark is the index itself.
pub proof fn lemma_marked_at(removed: Seq<usize>, index: usize, k: int)
    requires
        0 <= k <= removed.len(),
        forall|m: int| 0 <= m < k ==> removed[m] > index,
        k < removed.len() ==> removed[k] <= index,
    ensures
        marked(removed, index) == if k < removed.len() && removed[k] == index {
            removed
        } else {
            removed.insert(k, index)
        },
    decreases k,
{
    if k == 0 {
        if removed.len() == 0 || removed[0] < index {
            assert(seq![index] + removed =~= removed.insert(0, index));
        }
    } else {
        let rest = removed.drop_first();
        lemma_marked_at(rest, index, k - 1);
        if k < removed.len() && removed[k] == index {
            assert(seq![removed[0]] + rest =~= removed);
        } else {
            assert(seq![removed[0]] + rest.insert(k - 1, index) =~= removed.insert(k, index));
        }
    }
}

} // verus!
