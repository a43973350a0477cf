//! Food: lies where it was put until an eater consumes it.

use rand_pcg::Pcg32;
use vstd::prelude::*;

use super::entity::{lemma_some_draw_is_valid, Entity, Outcome, Updateable};
use super::error::SimulationError;
use super::{Position, World, RED};

verus! {

/// A piece of food on one cell.
#[derive(Debug, Clone, Copy, PartialEq, Eq, Structural)]
pub struct Food {
    pub position: Position,
}

impl Food {
    pub fn new(position: Position) -> (food: Food)
        ensures
            food.position == position,
    {
        Food { position }
    }

    /// Food stays as it is, makes nothing and removes nothing.
    pub open spec fn step(self) -> Outcome {
        (Entity::Food(self), None, None)
    }
}

impl Updateable for Food {
    open spec fn entity(&self) -> Entity {
        Entity::Food(*self)
    }

    fn update(&self, world: &World, _rng: &mut Pcg32) -> (outcome: Result<Outcome, SimulationError>) {
        proof {
            lemma_some_draw_is_valid(world@);
        }
        Ok((Entity::Food(*self), None, None))
    }

    fn get_name(&self) -> (name: &str) {
        "food"
    }

    fn get_position(&self) -> (position: Position) {
        self.position
    }

    fn get_color(&self) -> (color: &str) {
        RED
    }
}

} // verus!
