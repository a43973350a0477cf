//! The food spawner: puts a new piece of food on the grid at a fixed interval.

use rand_pcg::Pcg32;
use vstd::prelude::*;

use super::entity::{
    cardinal_order, lemma_some_draw_is_valid, valid_draw, Draw, Entity, Outcome, Updateable,
};
use super::error::SimulationError;
use super::food::Food;
use super::random::random_below;
use super::{Position, World, WorldView, GREEN};

verus! {

/// Counts the ticks since it last spawned food, and the interval at which
/// it does so.
#[derive(Debug, Clone, Copy, PartialEq, Eq, Structural)]
pub struct FoodSpawner {
    pub last_spawned: i32,
    pub spawn_every_x_ticks: i32,
}

impl FoodSpawner {
    pub fn new(last_spawned: i32, spawn_every_x_ticks: i32) -> (spawner: FoodSpawner)
        ensures
            spawner.last_spawned == last_spawned,
            spawner.spawn_every_x_ticks == spawn_every_x_ticks,
    {
        FoodSpawner { last_spawned, spawn_every_x_ticks }
    }

    /// With this tick the interval is over.
    pub open spec fn is_due(self) -> bool {
        self.last_spawned + 1 >= self.spawn_every_x_ticks
    }

    /// A spawner that is due starts to count anew, and puts food on the
    /// drawn cell unless that cell is occupied. One that is not due counts
    /// the tick.
    pub open spec fn step(self, world: WorldView, cell: Position) -> Outcome {
        if self.is_due() {
            (
                Entity::FoodSpawner(FoodSpawner { last_spawned: 0, ..self }),
                if world.occupied(cell) {
                    None
                } else {
                    Some(Entity::Food(Food { position: cell }))
                },
                None,
            )
        } else {
            (
                Entity::FoodSpawner(
                    FoodSpawner { last_spawned: (self.last_spawned + 1) as i32, ..self },
                ),
                None,
                None,
            )
        }
    }

    /// Whether the interval is over with this tick.
    pub fn due(&self) -> (due: bool)
        ensures
            due == self.is_due(),
    {
        self.last_spawned == i32::MAX || self.last_spawned + 1 >= self.spawn_every_x_ticks
    }

    /// The spawner's transition for a given cell to spawn on.
    pub fn update_with(&self, world: &World, cell: Position) -> (outcome: Outcome)
        ensures
            outcome == self.step(world@, cell),
    {
        if self.due() {
            let new_food = match world.get_entity_at(&cell) {
                None => Some(Entity::Food(Food::new(cell))),
                Some(_) => {
                    assert(world@.occupied(cell)) by {
                        let i = choose|i: int| #[trigger] world@.first_at(cell, i);
                        assert(world@.is_at(cell, i));
                    }
                    None
                },
            };
            (Entity::FoodSpawner(FoodSpawner { last_spawned: 0, ..*self }), new_food, None)
        } else {
            (
                Entity::FoodSpawner(FoodSpawner { last_spawned: self.last_spawned + 1, ..*self }),
                None,
                None,
            )
        }
    }
}

impl Updateable for FoodSpawner {
    open spec fn entity(&self) -> Entity {
        Entity::FoodSpawner(*self)
    }

    fn update(&self, world: &World, rng: &mut Pcg32) -> (outcome: Result<Outcome, SimulationError>) {
        if self.due() {
            let x: i32 = random_below(rng, *world.get_width());
            let y: i32 = random_below(rng, *world.get_height());
            let cell = Position { x, y };
            let outcome = self.update_with(world, cell);
            proof {
                let draw = Draw { cell, order: cardinal_order() };
                lemma_some_draw_is_valid(world@);
                assert(valid_draw(world@, draw));
                assert(Ok::<Outcome, SimulationError>(outcome) == self.entity().transition(
                    world@,
                    draw,
                ));
            }
            Ok(outcome)
        } else {
            let cell = Position { x: 0, y: 0 };
            let outcome = self.update_with(world, cell);
            proof {
                let draw = Draw { cell, order: cardinal_order() };
                lemma_some_draw_is_valid(world@);
                assert(valid_draw(world@, draw));
                assert(Ok::<Outcome, SimulationError>(outcome) == self.entity().transition(
                    world@,
                    draw,
                ));
            }
            Ok(outcome)
        }
    }

    fn get_name(&self) -> (name: &str) {
        "unnamed"
    }

    fn get_position(&self) -> (position: Position) {
        Position { x: 0, y: 0 }
    }

    fn get_color(&self) -> (color: &str) {
        GREEN
    }
}

} // verus!
