//! The eater spawner: brings a new eater into a world that has had none for
//! a while.

use rand_pcg::Pcg32;
use vstd::prelude::*;

use super::eater::Eater;
use super::entity::{
    cardinal_order, lemma_some_draw_is_valid, valid_draw, Draw, Entity, Outcome, Updateable,
};
use super::error::SimulationError;
use super::random::random_below;
use super::{Position, World, WorldView, GREEN};

verus! {

/// The number of eaterless ticks that the spawner lets pass.
pub const SPAWN_AFTER_X_TICKS: i32 = 20;

/// Counts the ticks that the world has been without an eater.
#[derive(Debug, Clone, Copy, PartialEq, Eq, Structural)]
pub struct EaterSpawner {
    pub ticks_without_eater: i32,
}

impl EaterSpawner {
    pub fn new(ticks_without_eater: i32) -> (spawner: EaterSpawner)
        ensures
            spawner.ticks_without_eater == ticks_without_eater,
    {
        EaterSpawner { ticks_without_eater }
    }

    /// The count has passed the number of ticks that the spawner waits.
    pub open spec fn is_due(self) -> bool {
        self.ticks_without_eater > SPAWN_AFTER_X_TICKS
    }

    /// A spawner that is due starts to count anew, and puts a new eater on
    /// the drawn cell unless that cell is occupied. One that is not due
    /// counts the tick if the world holds no live eater.
    pub open spec fn step(self, world: WorldView, cell: Position) -> Outcome {
        if self.is_due() {
            (
                Entity::EaterSpawner(EaterSpawner { ticks_without_eater: 0 }),
                if world.occupied(cell) {
                    None
                } else {
                    Some(Entity::Eater(Eater::fresh(cell)))
                },
                None,
            )
        } else if forall|i: int| !world.is_visible_eater(i) {
            (
                Entity::EaterSpawner(
                    EaterSpawner { ticks_without_eater: (self.ticks_without_eater + 1) as i32 },
                ),
                None,
                None,
            )
        } else {
            (Entity::EaterSpawner(self), None, None)
        }
    }

    /// Whether the spawner has waited long enough.
    pub fn due(&self) -> (due: bool)
        ensures
            due == self.is_due(),
    {
        self.ticks_without_eater > SPAWN_AFTER_X_TICKS
    }

    /// The spawner's transition for a given cell to spawn on.
    pub fn update_with(&self, world: &World, cell: Position) -> (outcome: Outcome)
        ensures
            outcome == self.step(world@, cell),
    {
        if self.due() {
            let created_eater = match world.get_entity_at(&cell) {
                None => Some(Entity::Eater(Eater::new(cell))),
                Some(_) => {
                    assert(world@.occupied(cell)) by {
                        let i = choose|i: int| #[trigger] world@.first_at(cell, i);
                        assert(world@.is_at(cell, i));
                    }
                    None
                },
            };
            (Entity::EaterSpawner(EaterSpawner::new(0)), created_eater, None)
        } else {
            let eaters = world.get_eater_entities();
            if eaters.len() == 0 {
                assert forall|i: int| !world@.is_visible_eater(i) by {
                    if world@.is_visible_eater(i) {
                        assert(eaters@.contains(i as usize));
                    }
                }
                (Entity::EaterSpawner(EaterSpawner::new(self.ticks_without_eater + 1)), None, None)
            } else {
                assert(world@.is_visible_eater(eaters@[0] as int));
                (Entity::EaterSpawner(*self), None, None)
            }
        }
    }
}

impl Updateable for EaterSpawner {
    open spec fn entity(&self) -> Entity {
        Entity::EaterSpawner(*self)
    }

    fn update(&self, world: &World, rng: &mut Pcg32) -> (outcome: Result<Outcome, SimulationError>) {
        if self.due() {
            let x: i32 = random_below(rng, *world.get_width());
            let y: i32 = random_below(rng, *world.get_height());
            let cell = Position { x, y };
            let outcome = self.update_with(world, cell);
            proof {
                let draw = Draw { cell, order: cardinal_order() };
                lemma_some_draw_is_valid(world@);
                assert(valid_draw(world@, draw));
                assert(Ok::<Outcome, SimulationError>(outcome) == self.entity().transition(
                    world@,
                    draw,
                ));
            }
            Ok(outcome)
        } else {
            let cell = Position { x: 0, y: 0 };
            let outcome = self.update_with(world, cell);
            proof {
                let draw = Draw { cell, order: cardinal_order() };
                lemma_some_draw_is_valid(world@);
                assert(valid_draw(world@, draw));
                assert(Ok::<Outcome, SimulationError>(outcome) == self.entity().transition(
                    world@,
                    draw,
                ));
            }
            Ok(outcome)
        }
    }

    fn get_name(&self) -> (name: &str) {
        "eater spawner"
    }

    fn get_position(&self) -> (position: Position) {
        Position { x: 0, y: 0 }
    }

    fn get_color(&self) -> (color: &str) {
        GREEN
    }
}

} // verus!
