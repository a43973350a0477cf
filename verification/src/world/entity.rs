//! The closed set of entity kinds, and what each of them does in a tick.

use rand_pcg::Pcg32;
use vstd::prelude::*;

use super::eater::Eater;
use super::eater_spawner::EaterSpawner;
use super::error::SimulationError;
use super::food::Food;
use super::food_spawner::FoodSpawner;
use super::{manhattan, Direction, Position, World, WorldView};
use super::{BROWN, GREEN, RED};

verus! {

/// One simulated object.
#[derive(Debug, Clone, Copy, PartialEq, Eq, Structural)]
pub enum Entity {
    Food(Food),
    FoodSpawner(FoodSpawner),
    EaterSpawner(EaterSpawner),
    Eater(Eater),
}

/// What a tick makes of one entity: its next state, an entity that it
/// brings into the world, and the index of one that it removes.
pub type Outcome = (Entity, Option<Entity>, Option<usize>);

/// The random choices that one entity may draw in a tick: a cell of the
/// grid and an order in which to try the directions.
pub struct Draw {
    pub cell: Position,
    pub order: Seq<Direction>,
}

/// Where the entities without a place of their own are taken to be.
pub open spec fn origin() -> Position {
    Position { x: 0, y: 0 }
}

/// The four directions, unshuffled.
pub open spec fn cardinal_order() -> Seq<Direction> {
    seq![Direction::Up, Direction::Right, Direction::Down, Direction::Left]
}

/// `order` holds each of the four directions once.
pub open spec fn is_shuffled(order: Seq<Direction>) -> bool {
    order.to_multiset() == cardinal_order().to_multiset()
}

/// The cell lies on the world's grid and the order holds each direction
/// once.
pub open spec fn valid_draw(world: WorldView, draw: Draw) -> bool {
    world.in_grid(draw.cell) && is_shuffled(draw.order)
}

/// What came of a transition lies on the world's grid: the entity's next
/// state, and what it spawned.
pub open spec fn stays_on_grid(world: WorldView, outcome: Result<Outcome, SimulationError>) -> bool {
    outcome matches Ok((next, spawned, _)) ==> {
        &&& world.in_grid(next.position())
        &&& spawned matches Some(new_entity) ==> world.in_grid(new_entity.position())
    }
}

/// In a world with at least one cell some draw is valid.
pub proof fn lemma_some_draw_is_valid(world: WorldView)
    requires
        world.wf(),
    ensures
        valid_draw(world, Draw { cell: origin(), order: cardinal_order() }),
{
}

/// The four directions, unshuffled.
pub fn cardinal_directions() -> (directions: [Direction; 4])
    ensures
        directions@ == cardinal_order(),
{
    let directions = [Direction::Up, Direction::Right, Direction::Down, Direction::Left];
    assert(directions@ =~= cardinal_order());
    directions
}

impl Entity {
    /// The cell that the entity counts as standing on. Spawners count as
    /// standing on the origin.
    pub open spec fn position(self) -> Position {
        match self {
            Entity::Food(food) => food.position,
            Entity::Eater(eater) => eater.position,
            Entity::FoodSpawner(_) => origin(),
            Entity::EaterSpawner(_) => origin(),
        }
    }

    /// The name of the entity's kind.
    pub open spec fn name(self) -> Seq<char> {
        match self {
            Entity::Food(_) => "food"@,
            Entity::Eater(_) => "eater"@,
            Entity::FoodSpawner(_) => "unnamed"@,
            Entity::EaterSpawner(_) => "eater spawner"@,
        }
    }

    /// The colour that the entity is drawn in. Spawners are drawn in the
    /// colour of the ground.
    pub open spec fn color(self) -> Seq<char> {
        match self {
            Entity::Food(_) => RED@,
            Entity::Eater(_) => BROWN@,
            Entity::FoodSpawner(_) => GREEN@,
            Entity::EaterSpawner(_) => GREEN@,
        }
    }

    /// Whether the entity draws from the generator in a tick: a spawner
    /// that is due draws a cell, an eater that wanders or reproduces draws
    /// an order of the directions.
    pub open spec fn draws(self, world: WorldView) -> bool {
        match self {
            Entity::Food(_) => false,
            Entity::FoodSpawner(spawner) => spawner.is_due(),
            Entity::EaterSpawner(spawner) => spawner.is_due(),
            Entity::Eater(eater) => eater.draws(world),
        }
    }

    /// What a tick makes of the entity in a world, once its random choices
    /// are drawn.
    pub open spec fn transition(self, world: WorldView, draw: Draw) -> Result<
        Outcome,
        SimulationError,
    > {
        match self {
            Entity::Food(food) => Ok(food.step()),
            Entity::FoodSpawner(spawner) => Ok(spawner.step(world, draw.cell)),
            Entity::EaterSpawner(spawner) => Ok(spawner.step(world, draw.cell)),
            Entity::Eater(eater) => eater.step(world, draw.order),
        }
    }
}

/// What every kind of entity offers: its transition in a tick, and how it
/// is named, placed and drawn.
pub trait Updateable {
    /// The entity that the value is.
    spec fn entity(&self) -> Entity;

    /// Computes the entity's next state from a world that it only reads,
    /// with the random choices drawn from `rng`. An entity that has nothing
    /// to draw leaves the generator as it was. No entity moves further than
    /// to a cell next to its own.
    fn update(&self, world: &World, rng: &mut Pcg32) -> (outcome: Result<Outcome, SimulationError>)
        requires
            world@.wf(),
        ensures
            exists|draw: Draw| #[trigger]
                valid_draw(world@, draw) && outcome == self.entity().transition(world@, draw),
            outcome matches Ok((_, _, Some(index))) ==> index < world@.entities.len(),
            world@.in_grid(self.entity().position()) ==> stays_on_grid(world@, outcome),
            !self.entity().draws(world@) ==> *final(rng) == *old(rng),
            outcome matches Ok((next, _, _)) ==> manhattan(
                self.entity().position(),
                next.position(),
            ) <= 1,
    ;

    fn get_name(&self) -> (name: &str)
        ensures
            name@ == self.entity().name(),
    ;

    fn get_position(&self) -> (position: Position)
        ensures
            position == self.entity().position(),
    ;

    fn get_color(&self) -> (color: &str)
        ensures
            color@ == self.entity().color(),
    ;
}

impl Updateable for Entity {
    open spec fn entity(&self) -> Entity {
        *self
    }

    fn update(&self, world: &World, rng: &mut Pcg32) -> (outcome: Result<Outcome, SimulationError>) {
        match self {
            Entity::Food(food) => food.update(world, rng),
            Entity::FoodSpawner(spawner) => spawner.update(world, rng),
            Entity::EaterSpawner(spawner) => spawner.update(world, rng),
            Entity::Eater(eater) => eater.update(world, rng),
        }
    }

    fn get_name(&self) -> (name: &str) {
        match self {
            Entity::Food(food) => food.get_name(),
            Entity::FoodSpawner(spawner) => spawner.get_name(),
            Entity::EaterSpawner(spawner) => spawner.get_name(),
            Entity::Eater(eater) => eater.get_name(),
        }
    }

    fn get_position(&self) -> (position: Position) {
        match self {
            Entity::Food(food) => food.get_position(),
            Entity::FoodSpawner(spawner) => spawner.get_position(),
            Entity::EaterSpawner(spawner) => spawner.get_position(),
            Entity::Eater(eater) => eater.get_position(),
        }
    }

    fn get_color(&self) -> (color: &str) {
        match self {
            Entity::Food(food) => food.get_color(),
            Entity::FoodSpawner(spawner) => spawner.get_color(),
            Entity::EaterSpawner(spawner) => spawner.get_color(),
            Entity::Eater(eater) => eater.get_color(),
        }
    }
}

} // verus!
