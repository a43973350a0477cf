//! The eater: an agent that wanders, seeks food when hungry, reproduces and
//! dies.

use rand_pcg::Pcg32;
use vstd::prelude::*;

use super::entity::{
    cardinal_directions, cardinal_order, is_shuffled, lemma_some_draw_is_valid, origin,
    stays_on_grid, valid_draw, Draw, Entity, Outcome, Updateable,
};
use super::error::SimulationError;
use super::garden_pathfinding::{
    a_star_pathfind, astar_route, is_move, lemma_move_is_adjacent, lemma_move_without_ignored,
    next_step_of, within_reach,
};
use super::laws::{lemma_step_is_short, lemma_step_stays_on_grid};
use super::random::shuffled;
use super::{manhattan, manhattan_distance, Direction, Position, World, WorldView, BROWN};

verus! {

/// What an eater can long for.
#[derive(Debug, Copy, Clone, Eq, PartialEq, Hash, Structural)]
pub enum Desire {
    Hunger,
}

/// What an eater sets out to do in a tick.
#[derive(Debug, Copy, Clone, Eq, PartialEq, Structural)]
pub enum EaterGoal {
    /// Approach or consume the food entity at this index.
    GetFood(usize),
    /// Move to a random neighbouring cell.
    Wander,
    Die,
    Reproduce,
}

/// How an eater's way to a piece of food goes on in a tick.
#[derive(Debug, Copy, Clone, Eq, PartialEq, Structural)]
pub enum Pursuit {
    /// The food is within reach and gets eaten.
    Eat,
    /// The eater steps on this cell.
    MoveTo(Position),
    /// No way is free: the eater remains in place.
    Stay,
}

/// The hunger at which a new eater starts to look for food.
pub const HUNGER_THRESHOLD: i8 = 20;

/// The hunger that a piece of food takes away.
pub const FOOD_VALUE: i8 = 20;

/// How often an eater plans a way to its food in one tick.
pub const PATH_ATTEMPTS: usize = 3;

/// An agent on one cell, with its hunger, its age and the ticks since it
/// last reproduced.
#[derive(Debug, Clone, Copy, PartialEq, Eq, Structural)]
pub struct Eater {
    pub position: Position,
    pub hunger: i8,
    pub hunger_threshold: i8,
    pub age: i32,
    pub last_reproduced: i32,
}

/// The sum of a desire and an increment, kept between zero and the largest
/// level that fits.
pub open spec fn clamped_level(level: i8, increment: i8) -> i8 {
    let sum = level + increment;
    if sum < 0 {
        0i8
    } else if sum > i8::MAX {
        i8::MAX
    } else {
        sum as i8
    }
}

/// A count of ticks after one more tick. It stops at the largest count that
/// fits.
pub open spec fn counted(ticks: i32) -> i32 {
    if ticks < i32::MAX {
        (ticks + 1) as i32
    } else {
        ticks
    }
}

/// `cell` is a free neighbouring cell of `p`: it is not `p` itself, and no
/// live entity stands on it.
pub open spec fn is_free_neighbor(world: WorldView, p: Position, cell: Position) -> bool {
    cell != p && !world.occupied(cell)
}

/// The first free neighbouring cell of `p`, the directions tried in the
/// given order from its `k`-th on: the first cell that one step from `p`
/// leads to, that is not `p` itself, as it is where the step stops at the
/// grid's edge, and that no live entity stands on.
pub open spec fn first_free(world: WorldView, p: Position, order: Seq<Direction>, k: int) -> Option<
    Position,
>
    decreases order.len() - k,
{
    if k < 0 || k >= order.len() {
        None
    } else {
        let cell = world.step_from(p, order[k]);
        if is_free_neighbor(world, p, cell) {
            Some(cell)
        } else {
            first_free(world, p, order, k + 1)
        }
    }
}

/// How the way from `start` to the food on `target` goes on, with
/// `attempts` searches left and the cells in `ignored` found occupied so
/// far. A search that costs 1 ends on the food. Else the eater takes the
/// next step if that cell is free, and searches again without that cell if
/// it is not. It stays where no path is found or no search is left.
pub open spec fn pursuit(
    world: WorldView,
    start: Position,
    target: Position,
    ignored: Seq<Position>,
    attempts: nat,
) -> Pursuit
    decreases attempts,
{
    if attempts == 0 {
        Pursuit::Stay
    } else {
        match next_step_of(astar_route(start, target, ignored, world.width, world.height)) {
            Err(_) => Pursuit::Stay,
            Ok((cost, step)) => if cost == 1 {
                Pursuit::Eat
            } else if !world.occupied(step) {
                Pursuit::MoveTo(step)
            } else {
                pursuit(world, start, target, ignored.push(step), (attempts - 1) as nat)
            },
        }
    }
}

impl WorldView {
    /// The entity at index `i` is live and is `entity`.
    pub open spec fn holds_live(self, entity: Entity, i: int) -> bool {
        self.is_live(i) && self.entities[i] == entity
    }

    /// Index `i` is the first at which a live entity is `entity`.
    pub open spec fn holds_first(self, entity: Entity, i: int) -> bool {
        self.holds_live(entity, i) && forall|j: int|
            0 <= j < i ==> !#[trigger] self.holds_live(entity, j)
    }

    /// The first index at which a live entity is `entity`.
    pub open spec fn index_of(self, entity: Entity) -> Option<usize> {
        if exists|i: int| self.holds_first(entity, i) {
            Some((choose|i: int| self.holds_first(entity, i)) as usize)
        } else {
            None
        }
    }
}

impl Eater {
    /// A new eater on the given cell: not hungry, of age zero.
    pub open spec fn fresh(position: Position) -> Eater {
        Eater { position, hunger: 0, hunger_threshold: HUNGER_THRESHOLD, age: 0, last_reproduced: 0 }
    }

    /// The eater one tick on: hungrier by one, older by one, one tick
    /// further from its last reproduction.
    pub open spec fn aged(self) -> Eater {
        Eater {
            hunger: clamped_level(self.hunger, 1),
            age: counted(self.age),
            last_reproduced: counted(self.last_reproduced),
            ..self
        }
    }

    /// The live piece of food at index `i` is nearest to the eater, and
    /// the first such in the order of the collection.
    pub open spec fn is_closest_food(self, world: WorldView, i: int) -> bool {
        &&& world.is_visible_food(i)
        &&& forall|j: int| #[trigger]
            world.is_visible_food(j) ==> {
                &&& manhattan(world.entities[i].position(), self.position) <= manhattan(
                    world.entities[j].position(),
                    self.position,
                )
                &&& j < i ==> manhattan(world.entities[i].position(), self.position) < manhattan(
                    world.entities[j].position(),
                    self.position,
                )
            }
    }

    /// The goal that the eater's state and the visible food call for.
    pub open spec fn goal(self, world: WorldView) -> EaterGoal {
        if self.hunger > 99 || self.age > 1000 {
            EaterGoal::Die
        } else if self.hunger < 20 && self.age > 40 && self.last_reproduced > 40 {
            EaterGoal::Reproduce
        } else if self.hunger < self.hunger_threshold || forall|i: int| !world.is_visible_food(i) {
            EaterGoal::Wander
        } else {
            EaterGoal::GetFood((choose|i: int| self.is_closest_food(world, i)) as usize)
        }
    }

    /// What a tick makes of the eater once its goal is chosen. Whatever the
    /// goal, the eater ages.
    ///
    /// Wandering, it moves to the first free neighbouring cell, in the given
    /// order, and remains in place if there is none. Getting food, it eats
    /// what is within reach, which marks the food for removal and stills its
    /// hunger, or takes a step on its way. Dying, it marks itself: the first
    /// live entity of the world that is the eater as it stands before the
    /// tick; that fails if the world holds none. Reproducing, it puts a new
    /// eater on the first free neighbouring cell and starts its timer anew;
    /// where there is no such cell it has no offspring, and the timer runs
    /// on.
    pub open spec fn pursue(self, world: WorldView, goal: EaterGoal, order: Seq<Direction>) -> Result<
        Outcome,
        SimulationError,
    > {
        let aged = self.aged();
        match goal {
            EaterGoal::Wander => Ok(
                (
                    Entity::Eater(
                        Eater {
                            position: match first_free(world, self.position, order, 0) {
                                Some(cell) => cell,
                                None => self.position,
                            },
                            ..aged
                        },
                    ),
                    None,
                    None,
                ),
            ),
            EaterGoal::GetFood(food) => match pursuit(
                world,
                self.position,
                world.entities[food as int].position(),
                Seq::empty(),
                PATH_ATTEMPTS as nat,
            ) {
                Pursuit::Eat => Ok(
                    (
                        Entity::Eater(
                            Eater { hunger: clamped_level(aged.hunger, (-FOOD_VALUE) as i8), ..aged },
                        ),
                        None,
                        Some(food),
                    ),
                ),
                Pursuit::MoveTo(cell) => Ok((Entity::Eater(Eater { position: cell, ..aged }), None, None)),
                Pursuit::Stay => Ok((Entity::Eater(aged), None, None)),
            },
            EaterGoal::Die => match world.index_of(Entity::Eater(self)) {
                Some(index) => Ok((Entity::Eater(aged), None, Some(index))),
                None => Err(SimulationError::InvariantViolation),
            },
            EaterGoal::Reproduce => match first_free(world, self.position, order, 0) {
                Some(cell) => Ok(
                    (
                        Entity::Eater(Eater { last_reproduced: 0, ..aged }),
                        Some(Entity::Eater(Eater::fresh(cell))),
                        None,
                    ),
                ),
                None => Ok((Entity::Eater(aged), None, None)),
            },
        }
    }

    /// The outcome of a tick in which the eater sets out for the food at
    /// index `food`: the tick does not fail; it marks that food, and
    /// nothing else, exactly where the food is within reach, on the eater's
    /// own cell or on a cell of the grid next to it; and it spawns nothing.
    pub open spec fn eats_within_reach(
        self,
        world: WorldView,
        food: usize,
        outcome: Result<Outcome, SimulationError>,
    ) -> bool {
        outcome matches Ok((_, spawned, removed)) && spawned is None && (removed is Some ==> removed
            == Some(food)) && (removed is Some <==> within_reach(
            self.position,
            world.entities[food as int].position(),
            Seq::empty(),
            world.width,
            world.height,
        ))
    }

    /// Whether the eater draws from the generator in a tick: it does to
    /// wander and to reproduce.
    pub open spec fn draws(self, world: WorldView) -> bool {
        self.aged().goal(world) is Wander || self.aged().goal(world) is Reproduce
    }

    /// What a tick makes of the eater: it ages, selects its goal by its
    /// state after that, and pursues it.
    pub open spec fn step(self, world: WorldView, order: Seq<Direction>) -> Result<
        Outcome,
        SimulationError,
    > {
        self.pursue(world, self.aged().goal(world), order)
    }

    pub fn new(position: Position) -> (eater: Eater)
        ensures
            eater == Eater::fresh(position),
    {
        Eater { position, hunger: 0, hunger_threshold: HUNGER_THRESHOLD, age: 0, last_reproduced: 0 }
    }

    pub fn set_desire(&mut self, desire: Desire, level: i8)
        ensures
            *final(self) == (Eater { hunger: level, ..*old(self) }),
    {
        match desire {
            Desire::Hunger => {
                self.hunger = level;
            },
        }
    }

    pub fn get_desire(&self, desire: Desire) -> (level: i8)
        ensures
            level == self.hunger,
    {
        match desire {
            Desire::Hunger => self.hunger,
        }
    }

    pub fn get_desire_threshold(&self, desire: Desire) -> (level: i8)
        ensures
            level == self.hunger_threshold,
    {
        match desire {
            Desire::Hunger => self.hunger_threshold,
        }
    }

    /// Raises or lowers a desire and returns its new level. The level never
    /// falls below zero, nor does it rise above the largest that fits;
    /// levels of 100 and more are a death state.
    pub fn increment_desire(&mut self, desire: Desire, increment: i8) -> (level: i8)
        ensures
            level == clamped_level(old(self).hunger, increment),
            *final(self) == (Eater { hunger: level, ..*old(self) }),
    {
        let sum: i16 = self.get_desire(desire) as i16 + increment as i16;
        let level: i8 = if sum < 0 {
            0
        } else if sum > 127 {
            127
        } else {
            sum as i8
        };
        self.set_desire(desire, level);
        level
    }

    /// The eater as the tick leaves its hunger, age and reproduction timer.
    pub fn tick(&self) -> (aged: Eater)
        ensures
            aged == self.aged(),
    {
        let mut aged = *self;
        aged.increment_desire(Desire::Hunger, 1);
        if aged.age < i32::MAX {
            aged.age += 1;
        }
        if aged.last_reproduced < i32::MAX {
            aged.last_reproduced += 1;
        }
        aged
    }

    /// The indices of the entities that the eater sees: all live food.
    pub fn get_line_of_sight_entities(&self, world: &World) -> (indices: Vec<usize>)
        ensures
            forall|k: int|
                0 <= k < indices@.len() ==> world@.is_visible_food(#[trigger] indices@[k] as int),
            forall|i: int| world@.is_visible_food(i) ==> indices@.contains(i as usize),
            forall|k: int, l: int| 0 <= k < l < indices@.len() ==> indices@[k] < indices@[l],
    {
        world.get_food_entities()
    }

    /// Plans a way from the eater's cell to `goal`.
    pub fn pathfind(&self, goal: &Position, ignored_positions: &Vec<Position>, world: &World) -> (r:
        Result<(i64, Position), SimulationError>)
        ensures
            r == next_step_of(
                astar_route(self.position, *goal, ignored_positions@, world@.width, world@.height),
            ),
            r matches Ok((_, step)) ==> (world@.in_grid(self.position) ==> world@.in_grid(step)),
            r matches Ok((cost, step)) ==> (cost == 1 <==> within_reach(
                self.position,
                *goal,
                ignored_positions@,
                world@.width,
                world@.height,
            )) && (self.position != *goal ==> is_move(
                self.position,
                step,
                ignored_positions@,
                world@.width,
                world@.height,
            )),
            within_reach(self.position, *goal, ignored_positions@, world@.width, world@.height)
                ==> r is Ok,
    {
        a_star_pathfind(&self.position, goal, ignored_positions, world)
    }

    /// Two indices that both are the closest food are one index.
    pub proof fn lemma_closest_food_is_unique(self, world: WorldView, i: int, j: int)
        requires
            self.is_closest_food(world, i),
            self.is_closest_food(world, j),
        ensures
            i == j,
    {
    }

    /// Selects the eater's goal: to die of hunger or age, to reproduce, to
    /// wander, or to get the nearest piece of food.
    pub fn select_goal(&self, world: &World) -> (goal: EaterGoal)
        ensures
            goal == self.goal(world@),
            goal matches EaterGoal::GetFood(food) ==> self.is_closest_food(world@, food as int),
    {
        let entity_indices = self.get_line_of_sight_entities(world);
        let cur_hunger = self.get_desire(Desire::Hunger);
        let hunger_threshold = self.get_desire_threshold(Desire::Hunger);
        if cur_hunger > 99 || self.age > 1000 {
            EaterGoal::Die
        } else if cur_hunger < 20 && self.age > 40 && self.last_reproduced > 40 {
            EaterGoal::Reproduce
        } else if cur_hunger < hunger_threshold || entity_indices.len() == 0 {
            proof {
                if entity_indices@.len() == 0 {
                    assert forall|i: int| !world@.is_visible_food(i) by {
                        if world@.is_visible_food(i) {
                            assert(entity_indices@.contains(i as usize));
                        }
                    }
                }
            }
            EaterGoal::Wander
        } else {
            let entities = world.entities();
            assert(world@.is_visible_food(entity_indices@[0] as int));
            let mut closest: usize = 0;
            let mut closest_idx: usize = entity_indices[0];
            let mut min_distance: i64 = manhattan_distance(
                &entities[closest_idx].get_position(),
                &self.position,
            );
            let mut k: usize = 1;
            while k < entity_indices.len()
                invariant
                    1 <= k <= entity_indices@.len(),
                    entities@ == world@.entities,
                    closest < k,
                    closest_idx == entity_indices@[closest as int],
                    min_distance == manhattan(
                        world@.entities[closest_idx as int].position(),
                        self.position,
                    ),
                    forall|l: int|
                        0 <= l < entity_indices@.len() ==> world@.is_visible_food(
                            #[trigger] entity_indices@[l] as int,
                        ),
                    forall|l: int|
                        0 <= l < k ==> min_distance <= manhattan(
                            world@.entities[#[trigger] entity_indices@[l] as int].position(),
                            self.position,
                        ),
                    forall|l: int|
                        0 <= l < closest ==> min_distance < manhattan(
                            world@.entities[#[trigger] entity_indices@[l] as int].position(),
                            self.position,
                        ),
                decreases entity_indices@.len() - k,
            {
                let entity_idx: usize = entity_indices[k];
                assert(world@.is_visible_food(entity_indices@[k as int] as int));
                let distance: i64 = manhattan_distance(
                    &entities[entity_idx].get_position(),
                    &self.position,
                );
                if distance < min_distance {
                    closest = k;
                    closest_idx = entity_idx;
                    min_distance = distance;
                }
                k += 1;
            }
            proof {
                assert(world@.is_visible_food(entity_indices@[closest as int] as int));
                assert forall|j: int| #[trigger] world@.is_visible_food(j) implies {
                    &&& manhattan(world@.entities[closest_idx as int].position(), self.position)
                        <= manhattan(world@.entities[j].position(), self.position)
                    &&& j < closest_idx ==> manhattan(
                        world@.entities[closest_idx as int].position(),
                        self.position,
                    ) < manhattan(world@.entities[j].position(), self.position)
                } by {
                    assert(world@.is_live(j));
                    assert(0 <= j < entities.len());
                    assert(entity_indices@.contains(j as usize));
                    let l = choose|l: int|
                        0 <= l < entity_indices@.len() && entity_indices@[l] == j as usize;
                    assert(entity_indices@[l] as int == j);
                    if j < closest_idx {
                        if l >= closest as int {
                            if l > closest as int {
                                assert(entity_indices@[closest as int] < entity_indices@[l]);
                            }
                        }
                    }
                }
                assert(self.is_closest_food(world@, closest_idx as int));
                let chosen = choose|i: int| self.is_closest_food(world@, i);
                self.lemma_closest_food_is_unique(world@, chosen, closest_idx as int);
            }
            EaterGoal::GetFood(closest_idx)
        }
    }

    /// Tries the cells one step away in the given order, and returns the
    /// first that is not the eater's own and that no live entity stands on.
    pub fn find_free_cell(&self, world: &World, order: &[Direction; 4]) -> (cell: Option<Position>)
        ensures
            cell == first_free(world@, self.position, order@, 0),
            cell matches Some(free) ==> free != self.position && !world@.occupied(free)
                && manhattan(self.position, free) == 1,
            cell matches Some(free) ==> (world@.wf() && world@.in_grid(self.position)
                ==> world@.in_grid(free)),
    {
        let mut k: usize = 0;
        while k < 4
            invariant
                k <= 4,
                order@.len() == 4,
                first_free(world@, self.position, order@, 0) == first_free(
                    world@,
                    self.position,
                    order@,
                    k as int,
                ),
            decreases 4 - k,
        {
            let next_position = world.get_new_position(&self.position, &order[k]);
            if next_position.x != self.position.x || next_position.y != self.position.y {
                match world.get_entity_at(&next_position) {
                    None => {
                        proof {
                            lemma_step_is_short(world@, self.position, order@[k as int]);
                            if world@.wf() && world@.in_grid(self.position) {
                                lemma_step_stays_on_grid(world@, self.position, order@[k as int]);
                            }
                        }
                        return Some(next_position);
                    },
                    Some(_) => {
                        assert(world@.occupied(next_position)) by {
                            let i = choose|i: int| #[trigger] world@.first_at(next_position, i);
                            assert(world@.is_at(next_position, i));
                        }
                    },
                }
            }
            k += 1;
        }
        None
    }

    /// Plans the way to the food on `target`, anew after each step that
    /// turns out to be occupied, and says how the eater goes on. It eats
    /// exactly where the food is within reach: on its own cell or on a cell
    /// of the grid next to it. A step that it takes is a move to a free
    /// cell next to it.
    pub fn seek(&self, target: &Position, world: &World) -> (way: Pursuit)
        ensures
            way == pursuit(world@, self.position, *target, Seq::empty(), PATH_ATTEMPTS as nat),
            way matches Pursuit::MoveTo(cell) ==> (world@.in_grid(self.position) ==> world@.in_grid(
                cell,
            )),
            way is Eat <==> within_reach(
                self.position,
                *target,
                Seq::empty(),
                world@.width,
                world@.height,
            ),
            way matches Pursuit::MoveTo(cell) ==> !world@.occupied(cell) && manhattan(
                self.position,
                cell,
            ) == 1 && is_move(self.position, cell, Seq::empty(), world@.width, world@.height),
    {
        let mut ignored_positions: Vec<Position> = Vec::new();
        let mut attempt: usize = 0;
        while attempt < PATH_ATTEMPTS
            invariant
                attempt <= PATH_ATTEMPTS,
                attempt == 0 ==> ignored_positions@ =~= Seq::<Position>::empty(),
                attempt > 0 ==> !within_reach(
                    self.position,
                    *target,
                    Seq::empty(),
                    world@.width,
                    world@.height,
                ),
                pursuit(world@, self.position, *target, Seq::empty(), PATH_ATTEMPTS as nat)
                    == pursuit(
                    world@,
                    self.position,
                    *target,
                    ignored_positions@,
                    (PATH_ATTEMPTS - attempt) as nat,
                ),
            decreases PATH_ATTEMPTS - attempt,
        {
            match self.pathfind(target, &ignored_positions, world) {
                Err(_) => {
                    return Pursuit::Stay;
                },
                Ok((cost, try_position)) => {
                    if cost == 1 {
                        proof {
                            if self.position != *target {
                                lemma_move_without_ignored(
                                    self.position,
                                    *target,
                                    ignored_positions@,
                                    world@.width,
                                    world@.height,
                                );
                            }
                        }
                        return Pursuit::Eat;
                    }
                    proof {
                        lemma_move_without_ignored(
                            self.position,
                            try_position,
                            ignored_positions@,
                            world@.width,
                            world@.height,
                        );
                        lemma_move_is_adjacent(
                            self.position,
                            try_position,
                            ignored_positions@,
                            world@.width,
                            world@.height,
                        );
                    }
                    match world.get_entity_at(&try_position) {
                        None => {
                            return Pursuit::MoveTo(try_position);
                        },
                        Some(_) => {
                            assert(world@.occupied(try_position)) by {
                                let i = choose|i: int| #[trigger] world@.first_at(try_position, i);
                                assert(world@.is_at(try_position, i));
                            }
                        },
                    }
                    ignored_positions.push(try_position);
                },
            }
            attempt += 1;
        }
        Pursuit::Stay
    }

    /// The eater's own index in the world: the first at which a live entity
    /// is this eater.
    pub fn find_index(&self, world: &World) -> (index: Option<usize>)
        ensures
            index == world@.index_of(Entity::Eater(*self)),
            index matches Some(found) ==> world@.holds_first(Entity::Eater(*self), found as int),
            index is None ==> forall|i: int| !world@.holds_live(Entity::Eater(*self), i),
    {
        let entities = world.entities();
        let mut i: usize = 0;
        while i < entities.len()
            invariant
                i <= entities@.len(),
                entities@ == world@.entities,
                forall|j: int| 0 <= j < i ==> !#[trigger] world@.holds_live(Entity::Eater(*self), j),
            decreases entities@.len() - i,
        {
            if entities[i] == Entity::Eater(*self) && !world.is_removed(i) {
                proof {
                    assert(world@.holds_first(Entity::Eater(*self), i as int));
                    let chosen = choose|j: int| world@.holds_first(Entity::Eater(*self), j);
                    assert(world@.holds_first(Entity::Eater(*self), chosen));
                    assert(chosen == i) by {
                        if chosen < i {
                            assert(world@.holds_live(Entity::Eater(*self), chosen));
                        } else if i < chosen {
                            assert(world@.holds_live(Entity::Eater(*self), i as int));
                        }
                    }
                }
                return Some(i);
            }
            i += 1;
        }
        proof {
            assert forall|j: int| !world@.holds_live(Entity::Eater(*self), j) by {
                if world@.holds_live(Entity::Eater(*self), j) {
                    assert(0 <= j < entities@.len());
                }
            }
            assert(!exists|j: int| world@.holds_first(Entity::Eater(*self), j)) by {
                if exists|j: int| world@.holds_first(Entity::Eater(*self), j) {
                    let j = choose|j: int| world@.holds_first(Entity::Eater(*self), j);
                    assert(world@.holds_live(Entity::Eater(*self), j));
                }
            }
        }
        None
    }

    /// The eater's transition once its goal is chosen: it ages and acts on
    /// the goal.
    pub fn act(&self, world: &World, goal: EaterGoal, order: &[Direction; 4]) -> (outcome: Result<
        Outcome,
        SimulationError,
    >)
        requires
            goal matches EaterGoal::GetFood(food) ==> food < world@.entities.len(),
        ensures
            outcome == self.pursue(world@, goal, order@),
            outcome matches Ok((_, _, Some(index))) ==> index < world@.entities.len(),
            world@.wf() && world@.in_grid(self.position) ==> stays_on_grid(world@, outcome),
            outcome matches Ok((next, _, _)) ==> manhattan(self.position, next.position()) <= 1,
            goal matches EaterGoal::GetFood(food) ==> self.eats_within_reach(world@, food, outcome),
    {
        let mut new_eater = self.tick();
        match goal {
            EaterGoal::Wander => {
                if let Some(cell) = self.find_free_cell(world, order) {
                    new_eater.position = cell;
                }
                Ok((Entity::Eater(new_eater), None, None))
            },
            EaterGoal::GetFood(food_idx) => {
                let food_position = world.entities()[food_idx].get_position();
                match self.seek(&food_position, world) {
                    Pursuit::Eat => {
                        new_eater.increment_desire(Desire::Hunger, -FOOD_VALUE);
                        Ok((Entity::Eater(new_eater), None, Some(food_idx)))
                    },
                    Pursuit::MoveTo(cell) => {
                        new_eater.position = cell;
                        Ok((Entity::Eater(new_eater), None, None))
                    },
                    Pursuit::Stay => Ok((Entity::Eater(new_eater), None, None)),
                }
            },
            EaterGoal::Die => {
                match self.find_index(world) {
                    Some(self_idx) => Ok((Entity::Eater(new_eater), None, Some(self_idx))),
                    None => Err(SimulationError::InvariantViolation),
                }
            },
            EaterGoal::Reproduce => {
                match self.find_free_cell(world, order) {
                    Some(cell) => {
                        new_eater.last_reproduced = 0;
                        Ok((Entity::Eater(new_eater), Some(Entity::Eater(Eater::new(cell))), None))
                    },
                    None => Ok((Entity::Eater(new_eater), None, None)),
                }
            },
        }
    }

    /// The eater's transition for a given order in which to try the
    /// directions.
    pub fn update_with(&self, world: &World, order: &[Direction; 4]) -> (outcome: Result<
        Outcome,
        SimulationError,
    >)
        ensures
            outcome == self.step(world@, order@),
            outcome matches Ok((_, _, Some(index))) ==> index < world@.entities.len(),
            world@.wf() && world@.in_grid(self.position) ==> stays_on_grid(world@, outcome),
            outcome matches Ok((next, _, _)) ==> manhattan(self.position, next.position()) <= 1,
            self.aged().goal(world@) matches EaterGoal::GetFood(food) ==> self.eats_within_reach(
                world@,
                food,
                outcome,
            ),
    {
        let goal = self.tick().select_goal(world);
        self.act(world, goal, order)
    }
}

impl Updateable for Eater {
    open spec fn entity(&self) -> Entity {
        Entity::Eater(*self)
    }

    fn update(&self, world: &World, rng: &mut Pcg32) -> (outcome: Result<Outcome, SimulationError>) {
        let goal = self.tick().select_goal(world);
        let move_attempts = match goal {
            EaterGoal::Wander => shuffled(cardinal_directions(), rng),
            EaterGoal::Reproduce => shuffled(cardinal_directions(), rng),
            _ => cardinal_directions(),
        };
        let outcome = self.act(world, goal, &move_attempts);
        proof {
            let draw = Draw { cell: origin(), order: move_attempts@ };
            lemma_some_draw_is_valid(world@);
            assert(is_shuffled(cardinal_order()));
            assert(valid_draw(world@, draw));
            assert(outcome == self.entity().transition(world@, draw));
        }
        outcome
    }

    fn get_name(&self) -> (name: &str) {
        "eater"
    }

    fn get_position(&self) -> (position: Position) {
        self.position
    }

    fn get_color(&self) -> (color: &str) {
        BROWN
    }
}

} // verus!
