//! The world, its grid and the positions on it.

use rand_pcg::Pcg32;
use vstd::prelude::*;

use self::eater::Eater;
use self::eater_spawner::EaterSpawner;
use self::entity::{
    cardinal_order, lemma_some_draw_is_valid, origin, valid_draw, Draw, Entity, Updateable,
};
use self::food::Food;
use self::food_spawner::FoodSpawner;
use self::laws::shown;
use self::tick::{
    is_tick, lemma_marked_at, lemma_tick_prefix_ignores_later_draws,
    lemma_turns_ignore_later_draws, marked, some_turn_draws, swap_removed, tick_draws,
    tick_prefix, turn_draws, TickState,
};

pub mod eater;
pub mod eater_spawner;
pub mod entity;
pub mod error;
pub mod food;
pub mod food_spawner;
pub mod garden_pathfinding;
pub mod laws;
pub mod pathfinding;
pub mod random;
pub mod tick;

verus! {

pub const RED: &'static str = "#ff0000";

pub const BROWN: &'static str = "#996600";

pub const BLACK: &'static str = "#000000";

pub const GREEN: &'static str = "#009933";

/// A cell of the grid, or a point outside it.
#[derive(Debug, Eq, PartialEq, Copy, Clone, Hash, Structural)]
pub struct Position {
    pub x: i32,
    pub y: i32,
}

/// The four ways an entity can move.
#[derive(Debug, Eq, PartialEq, Copy, Clone, Structural)]
pub enum Direction {
    Up,
    Right,
    Down,
    Left,
}

impl Direction {
    /// The direction with the given number, counted clockwise from `Up` as
    /// zero; every number that is none of the first three gives `Left`.
    pub open spec fn of_index(index: i32) -> Direction {
        if index == 0 {
            Direction::Up
        } else if index == 1 {
            Direction::Right
        } else if index == 2 {
            Direction::Down
        } else {
            Direction::Left
        }
    }

    /// The direction with the given number.
    pub fn from_index(index: i32) -> (direction: Direction)
        ensures
            direction == Direction::of_index(index),
    {
        match index {
            0 => Direction::Up,
            1 => Direction::Right,
            2 => Direction::Down,
            _ => Direction::Left,
        }
    }

    /// Draws one of the four directions.
    pub fn sample(rng: &mut Pcg32) -> (direction: Direction)
        ensures
            exists|index: i32| 0 <= index < 4 && direction == Direction::of_index(index),
    {
        let index: i32 = random::random_below(rng, 4);
        Direction::from_index(index)
    }
}

/// Sum of the absolute coordinate differences of two positions.
pub open spec fn manhattan(a: Position, b: Position) -> int {
    (if a.x >= b.x { a.x - b.x } else { b.x - a.x })
        + (if a.y >= b.y { a.y - b.y } else { b.y - a.y })
}

/// Computes the Manhattan distance of two positions.
pub fn manhattan_distance(a: &Position, b: &Position) -> (d: i64)
    ensures
        d == manhattan(*a, *b),
{
    let ax: i64 = a.x as i64;
    let ay: i64 = a.y as i64;
    let bx: i64 = b.x as i64;
    let by: i64 = b.y as i64;
    let dx: i64 = if ax >= bx { ax - bx } else { bx - ax };
    let dy: i64 = if ay >= by { ay - by } else { by - ay };
    dx + dy
}

/// One entity as it is shown: where, and in which colour.
pub struct RenderedEntity {
    pub position: Position,
    pub color: String,
}

/// The grid and the entities on it.
pub struct World {
    width: i32,
    height: i32,
    entities: Vec<Entity>,
    removed_entity_indices: Vec<usize>,
    active: bool,
    manual_update_requested: bool,
}

/// What a world holds, as plain values.
pub struct WorldView {
    pub width: i32,
    pub height: i32,
    /// The entities in the order of the collection. An index into it means
    /// something within one tick only.
    pub entities: Seq<Entity>,
    /// The indices whose entities are marked for removal, largest first.
    pub removed: Seq<usize>,
    pub active: bool,
    pub manual_update_requested: bool,
}

impl WorldView {
    /// The grid has at least one cell, and the removal marks are indices of
    /// the collection, in strictly falling order.
    pub open spec fn wf(self) -> bool {
        &&& 1 <= self.width
        &&& 1 <= self.height
        &&& forall|k: int|
            0 <= k < self.removed.len() ==> (#[trigger] self.removed[k]) < self.entities.len()
        &&& forall|k: int, l: int|
            0 <= k < l < self.removed.len() ==> (#[trigger] self.removed[k]) > (
            #[trigger] self.removed[l])
    }

    pub open spec fn in_grid(self, p: Position) -> bool {
        0 <= p.x < self.width && 0 <= p.y < self.height
    }

    /// The index is one of the collection and is not marked for removal.
    pub open spec fn is_live(self, i: int) -> bool {
        0 <= i < self.entities.len() && !self.removed.contains(i as usize)
    }

    /// A live entity at index `i` stands on `p`.
    pub open spec fn is_at(self, p: Position, i: int) -> bool {
        self.is_live(i) && self.entities[i].position() == p
    }

    /// Some live entity stands on `p`.
    pub open spec fn occupied(self, p: Position) -> bool {
        exists|i: int| #[trigger] self.is_at(p, i)
    }

    /// A live piece of food is at index `i`.
    pub open spec fn is_visible_food(self, i: int) -> bool {
        self.is_live(i) && self.entities[i] is Food
    }

    /// A live eater is at index `i`.
    pub open spec fn is_visible_eater(self, i: int) -> bool {
        self.is_live(i) && self.entities[i] is Eater
    }

    /// Where one step from `p` leads: to the neighbouring cell, or nowhere
    /// where that cell would lie off the grid's edge.
    pub open spec fn step_from(self, p: Position, direction: Direction) -> Position {
        match direction {
            Direction::Up => if p.y != 0 && i32::MIN < p.y && p.y - 1 < self.height {
                Position { x: p.x, y: (p.y - 1) as i32 }
            } else {
                p
            },
            Direction::Right => if p.x + 1 < self.width {
                Position { x: (p.x + 1) as i32, y: p.y }
            } else {
                p
            },
            Direction::Down => if p.y + 1 < self.height {
                Position { x: p.x, y: (p.y + 1) as i32 }
            } else {
                p
            },
            Direction::Left => if p.x != 0 && i32::MIN < p.x && p.x - 1 < self.width {
                Position { x: (p.x - 1) as i32, y: p.y }
            } else {
                p
            },
        }
    }

    /// A strawberry for each of the first `upto` entities that counts as
    /// standing on `p`.
    pub open spec fn cell_marks(self, p: Position, upto: int) -> Seq<char>
        decreases upto,
    {
        if upto <= 0 {
            Seq::empty()
        } else if self.entities[upto - 1].position() == p {
            self.cell_marks(p, upto - 1) + "🍓"@
        } else {
            self.cell_marks(p, upto - 1)
        }
    }

    /// How a cell is shown: a strawberry for each entity that counts as
    /// standing on it, or two blanks where there is none.
    pub open spec fn cell_text(self, p: Position) -> Seq<char> {
        let marks = self.cell_marks(p, self.entities.len() as int);
        if marks.len() > 0 {
            marks
        } else {
            "  "@
        }
    }

    /// The first `upto` cells of row `y`, as they are shown.
    pub open spec fn row_text(self, y: int, upto: int) -> Seq<char>
        decreases upto,
    {
        if upto <= 0 {
            Seq::empty()
        } else {
            self.row_text(y, upto - 1) + self.cell_text(
                Position { x: (upto - 1) as i32, y: y as i32 },
            )
        }
    }

    /// Every entity counts as standing on a cell of the grid.
    pub open spec fn all_on_grid(self) -> bool {
        forall|i: int| 0 <= i < self.entities.len() ==> self.in_grid(#[trigger] self.entities[i].position())
    }

    /// The world with no manual update requested.
    pub open spec fn without_request(self) -> WorldView {
        WorldView { manual_update_requested: false, ..self }
    }

    /// Index `i` is the first at which a live entity stands on `p`.
    pub open spec fn first_at(self, p: Position, i: int) -> bool {
        self.is_at(p, i) && forall|j: int| 0 <= j < i ==> !#[trigger] self.is_at(p, j)
    }
}

/// Each of the entities counts as standing on a cell of the world's grid.
pub open spec fn on_grid(world: WorldView, entities: Seq<Entity>) -> bool {
    forall|i: int| 0 <= i < entities.len() ==> world.in_grid(#[trigger] entities[i].position())
}

/// Among marks in strictly falling order the `m`-th lies at least `m` below
/// the first.
pub proof fn lemma_falling_marks_are_few(removed: Seq<usize>, m: int)
    requires
        0 <= m < removed.len(),
        forall|k: int, l: int|
            0 <= k < l < removed.len() ==> (#[trigger] removed[k]) > (#[trigger] removed[l]),
    ensures
        removed[m] + m <= removed[0],
    decreases m,
{
    if m > 0 {
        lemma_falling_marks_are_few(removed, m - 1);
    }
}

impl View for World {
    type V = WorldView;

    closed spec fn view(&self) -> WorldView {
        WorldView {
            width: self.width,
            height: self.height,
            entities: self.entities@,
            removed: self.removed_entity_indices@,
            active: self.active,
            manual_update_requested: self.manual_update_requested,
        }
    }
}

impl World {
    /// An empty, running world of the given extents.
    pub fn new(width: i32, height: i32) -> (world: World)
        ensures
            world@ == (WorldView {
                width,
                height,
                entities: Seq::empty(),
                removed: Seq::empty(),
                active: true,
                manual_update_requested: false,
            }),
    {
        World {
            height,
            width,
            entities: Vec::new(),
            removed_entity_indices: Vec::new(),
            active: true,
            manual_update_requested: false,
        }
    }

    /// The world that a simulation starts from: 30 by 30 cells with a food
    /// spawner, an eater spawner, one eater and one piece of food.
    pub fn default() -> (world: World)
        ensures
            world@ == (WorldView {
                width: 30,
                height: 30,
                entities: seq![
                    Entity::FoodSpawner(FoodSpawner { last_spawned: 0, spawn_every_x_ticks: 10 }),
                    Entity::EaterSpawner(EaterSpawner { ticks_without_eater: 0 }),
                    Entity::Eater(Eater::fresh(Position { x: 15, y: 15 })),
                    Entity::Food(Food { position: Position { x: 20, y: 20 } }),
                ],
                removed: Seq::empty(),
                active: true,
                manual_update_requested: false,
            }),
            world@.wf(),
    {
        let mut entities: Vec<Entity> = Vec::new();
        entities.push(Entity::FoodSpawner(FoodSpawner::new(0, 10)));
        entities.push(Entity::EaterSpawner(EaterSpawner::new(0)));
        entities.push(Entity::Eater(Eater::new(Position { x: 15, y: 15 })));
        entities.push(Entity::Food(Food::new(Position { x: 20, y: 20 })));
        let world = World {
            width: 30,
            height: 30,
            entities,
            removed_entity_indices: Vec::new(),
            active: true,
            manual_update_requested: false,
        };
        assert(world@.entities =~= seq![
            Entity::FoodSpawner(FoodSpawner { last_spawned: 0, spawn_every_x_ticks: 10 }),
            Entity::EaterSpawner(EaterSpawner { ticks_without_eater: 0 }),
            Entity::Eater(Eater::fresh(Position { x: 15, y: 15 })),
            Entity::Food(Food { position: Position { x: 20, y: 20 } }),
        ]);
        world
    }

    pub fn get_height(&self) -> (height: &i32)
        ensures
            *height == self@.height,
    {
        &self.height
    }

    pub fn get_width(&self) -> (width: &i32)
        ensures
            *width == self@.width,
    {
        &self.width
    }

    pub fn add_entity(&mut self, entity: Entity)
        ensures
            final(self)@ == (WorldView { entities: old(self)@.entities.push(entity), ..old(self)@ }),
    {
        self.entities.push(entity);
    }

    /// Whether the world is well formed: its grid has a cell, and its
    /// removal marks are indices of the collection in strictly falling
    /// order. A tick asks for a world that is.
    pub fn is_well_formed(&self) -> (well_formed: bool)
        ensures
            well_formed == self@.wf(),
    {
        if self.width < 1 || self.height < 1 {
            return false;
        }
        let marks = &self.removed_entity_indices;
        let mut k: usize = 0;
        while k < marks.len()
            invariant
                k <= marks@.len(),
                marks@ == self@.removed,
                self@.width >= 1,
                self@.height >= 1,
                forall|l: int| 0 <= l < k ==> (#[trigger] marks@[l]) < self.entities@.len(),
                forall|l: int, m: int| 0 <= l < m < k ==> (#[trigger] marks@[l]) > (#[trigger] marks@[m]),
            decreases marks@.len() - k,
        {
            if marks[k] >= self.entities.len() {
                assert(!(self@.removed[k as int] < self@.entities.len()));
                return false;
            }
            if k > 0 && marks[k - 1] <= marks[k] {
                assert(!(self@.removed[k - 1] > self@.removed[k as int]));
                return false;
            }
            proof {
                assert forall|l: int, m: int| 0 <= l < m < k + 1 implies (#[trigger] marks@[l]) > (
                #[trigger] marks@[m]) by {
                    if m == k && l < k - 1 {
                        assert(marks@[l] > marks@[k - 1]);
                    }
                }
            }
            k += 1;
        }
        true
    }

    /// The entities in the order of the collection.
    pub fn entities(&self) -> (entities: &Vec<Entity>)
        ensures
            entities@ == self@.entities,
    {
        &self.entities
    }

    /// Whether the index is marked for removal.
    pub fn is_removed(&self, index: usize) -> (removed: bool)
        ensures
            removed == self@.removed.contains(index),
    {
        let mut k: usize = 0;
        while k < self.removed_entity_indices.len()
            invariant
                k <= self.removed_entity_indices.len(),
                forall|l: int| 0 <= l < k ==> self.removed_entity_indices[l] != index,
            decreases self.removed_entity_indices.len() - k,
        {
            if self.removed_entity_indices[k] == index {
                return true;
            }
            k += 1;
        }
        false
    }

    /// The positions and colours of the entities, in the order of the
    /// collection.
    pub fn render(&self) -> (rendered: Vec<RenderedEntity>)
        ensures
            rendered@.len() == self@.entities.len(),
            forall|i: int|
                0 <= i < rendered@.len() ==> (#[trigger] rendered@[i]).position
                    == self@.entities[i].position() && rendered@[i].color@
                    == self@.entities[i].color(),
            rendered@.map_values(|entity: RenderedEntity| (entity.position, entity.color@))
                == shown(self@),
    {
        let mut rendered: Vec<RenderedEntity> = Vec::new();
        let mut i: usize = 0;
        while i < self.entities.len()
            invariant
                i <= self.entities.len(),
                rendered@.len() == i,
                forall|j: int|
                    0 <= j < i ==> (#[trigger] rendered@[j]).position
                        == self.entities@[j].position() && rendered@[j].color@
                        == self.entities@[j].color(),
            decreases self.entities.len() - i,
        {
            let entity = &self.entities[i];
            rendered.push(
                RenderedEntity {
                    position: entity.get_position(),
                    color: String::from_str(entity.get_color()),
                },
            );
            i += 1;
        }
        assert(rendered@.map_values(|entity: RenderedEntity| (entity.position, entity.color@))
            =~= shown(self@));
        rendered
    }

    /// The indices of the live pieces of food, in rising order.
    pub fn get_food_entities(&self) -> (indices: Vec<usize>)
        ensures
            forall|k: int| 0 <= k < indices@.len() ==> self@.is_visible_food(#[trigger] indices@[k] as int),
            forall|i: int| self@.is_visible_food(i) ==> indices@.contains(i as usize),
            forall|k: int, l: int| 0 <= k < l < indices@.len() ==> indices@[k] < indices@[l],
    {
        let mut indices: Vec<usize> = Vec::new();
        let mut i: usize = 0;
        while i < self.entities.len()
            invariant
                i <= self.entities.len(),
                forall|k: int|
                    0 <= k < indices@.len() ==> self@.is_visible_food(#[trigger] indices@[k] as int)
                        && indices@[k] < i,
                forall|j: int| 0 <= j < i && self@.is_visible_food(j) ==> indices@.contains(j as usize),
                forall|k: int, l: int| 0 <= k < l < indices@.len() ==> indices@[k] < indices@[l],
            decreases self.entities.len() - i,
        {
            if !self.is_removed(i) {
                if let Entity::Food(_) = self.entities[i] {
                    let ghost before = indices@;
                    indices.push(i);
                    assert(indices@[before.len() as int] == i);
                    assert forall|j: int| 0 <= j < i + 1 && self@.is_visible_food(j) implies indices@.contains(
                        j as usize,
                    ) by {
                        if j < i {
                            let k = choose|k: int| 0 <= k < before.len() && before[k] == j as usize;
                            assert(indices@[k] == j as usize);
                        }
                    }
                }
            }
            i += 1;
        }
        indices
    }

    /// The indices of the live eaters, in rising order.
    pub fn get_eater_entities(&self) -> (indices: Vec<usize>)
        ensures
            forall|k: int|
                0 <= k < indices@.len() ==> self@.is_visible_eater(#[trigger] indices@[k] as int),
            forall|i: int| self@.is_visible_eater(i) ==> indices@.contains(i as usize),
            forall|k: int, l: int| 0 <= k < l < indices@.len() ==> indices@[k] < indices@[l],
    {
        let mut indices: Vec<usize> = Vec::new();
        let mut i: usize = 0;
        while i < self.entities.len()
            invariant
                i <= self.entities.len(),
                forall|k: int|
                    0 <= k < indices@.len() ==> self@.is_visible_eater(#[trigger] indices@[k] as int)
                        && indices@[k] < i,
                forall|j: int| 0 <= j < i && self@.is_visible_eater(j) ==> indices@.contains(j as usize),
                forall|k: int, l: int| 0 <= k < l < indices@.len() ==> indices@[k] < indices@[l],
            decreases self.entities.len() - i,
        {
            if !self.is_removed(i) {
                if let Entity::Eater(_) = self.entities[i] {
                    let ghost before = indices@;
                    indices.push(i);
                    assert(indices@[before.len() as int] == i);
                    assert forall|j: int| 0 <= j < i + 1 && self@.is_visible_eater(j) implies indices@.contains(
                        j as usize,
                    ) by {
                        if j < i {
                            let k = choose|k: int| 0 <= k < before.len() && before[k] == j as usize;
                            assert(indices@[k] == j as usize);
                        }
                    }
                }
            }
            i += 1;
        }
        indices
    }

    /// The first live entity that stands on the position, if there is one.
    pub fn get_entity_at(&self, position: &Position) -> (found: Option<&Entity>)
        ensures
            match found {
                Some(entity) => exists|i: int| #[trigger]
                    self@.first_at(*position, i) && *entity == self@.entities[i],
                None => !self@.occupied(*position),
            },
    {
        let mut i: usize = 0;
        while i < self.entities.len()
            invariant
                i <= self.entities.len(),
                forall|j: int| 0 <= j < i ==> !#[trigger] self@.is_at(*position, j),
            decreases self.entities.len() - i,
        {
            let entity_position = self.entities[i].get_position();
            if !self.is_removed(i) {
                if position.x == entity_position.x && position.y == entity_position.y {
                    assert(self@.first_at(*position, i as int));
                    return Some(&self.entities[i]);
                }
            }
            i += 1;
        }
        None
    }

    /// The position one step away from `cur_position`, or `cur_position`
    /// itself where the step would leave the grid.
    pub fn get_new_position(&self, cur_position: &Position, direction: &Direction) -> (new_position:
        Position)
        ensures
            new_position == self@.step_from(*cur_position, *direction),
    {
        let x: i64 = cur_position.x as i64;
        let y: i64 = cur_position.y as i64;
        let width: i64 = self.width as i64;
        let height: i64 = self.height as i64;
        match direction {
            Direction::Up => {
                if y != 0 && y - 1 >= -2147483648 && y - 1 < height {
                    Position { x: cur_position.x, y: cur_position.y - 1 }
                } else {
                    *cur_position
                }
            },
            Direction::Right => {
                if x + 1 < width {
                    Position { x: cur_position.x + 1, y: cur_position.y }
                } else {
                    *cur_position
                }
            },
            Direction::Down => {
                if y + 1 < height {
                    Position { x: cur_position.x, y: cur_position.y + 1 }
                } else {
                    *cur_position
                }
            },
            Direction::Left => {
                if x != 0 && x - 1 >= -2147483648 && x - 1 < width {
                    Position { x: cur_position.x - 1, y: cur_position.y }
                } else {
                    *cur_position
                }
            },
        }
    }

    /// The grid as text, one line for each row: on each cell a strawberry
    /// for every entity that counts as standing on it, or two blanks.
    pub fn render_to_string(&self) -> (lines: Vec<String>)
        ensures
            lines@.len() == (if self@.height > 0 {
                self@.height as int
            } else {
                0
            }),
            forall|y: int|
                0 <= y < lines@.len() ==> (#[trigger] lines@[y])@ == self@.row_text(
                    y,
                    self@.width as int,
                ),
    {
        let mut lines: Vec<String> = Vec::new();
        let mut y: i32 = 0;
        while y < self.height
            invariant
                0 <= y,
                y <= self.height || y == 0,
                lines@.len() == y,
                forall|v: int|
                    0 <= v < lines@.len() ==> (#[trigger] lines@[v])@ == self@.row_text(
                        v,
                        self@.width as int,
                    ),
            decreases self.height - y,
        {
            let mut line = String::from_str("");
            proof {
                reveal_strlit("");
                assert(line@ =~= self@.row_text(y as int, 0));
            }
            let mut x: i32 = 0;
            while x < self.width
                invariant
                    0 <= x,
                    x <= self.width || x == 0,
                    line@ == self@.row_text(y as int, x as int),
                decreases self.width - x,
            {
                let ghost row = line@;
                let mut found_entity = false;
                let mut i: usize = 0;
                while i < self.entities.len()
                    invariant
                        i <= self.entities@.len(),
                        line@ == row + self@.cell_marks(Position { x, y }, i as int),
                        found_entity == (self@.cell_marks(Position { x, y }, i as int).len() > 0),
                    decreases self.entities@.len() - i,
                {
                    let position = self.entities[i].get_position();
                    proof {
                        reveal_strlit("🍓");
                    }
                    if x == position.x && y == position.y {
                        let ghost marks = line@;
                        line.append("🍓");
                        found_entity = true;
                        assert(line@ =~= row + self@.cell_marks(Position { x, y }, i + 1));
                    }
                    i += 1;
                }
                if !found_entity {
                    line.append("  ");
                    assert(self@.cell_marks(Position { x, y }, self@.entities.len() as int)
                        =~= Seq::<char>::empty());
                }
                assert(line@ =~= self@.row_text(y as int, x + 1));
                x += 1;
            }
            assert(line@ == self@.row_text(y as int, self@.width as int));
            lines.push(line);
            y += 1;
        }
        lines
    }

    /// Marks an index for removal, unless it is marked already.
    fn mark_removed(&mut self, index: usize)
        requires
            old(self)@.wf(),
            index < old(self)@.entities.len(),
        ensures
            final(self)@ == (WorldView { removed: marked(old(self)@.removed, index), ..old(self)@ }),
            final(self)@.wf(),
    {
        let mut k: usize = 0;
        while k < self.removed_entity_indices.len() && self.removed_entity_indices[k] > index
            invariant
                k <= self.removed_entity_indices@.len(),
                forall|m: int| 0 <= m < k ==> self.removed_entity_indices@[m] > index,
            decreases self.removed_entity_indices@.len() - k,
        {
            k += 1;
        }
        proof {
            lemma_marked_at(self.removed_entity_indices@, index, k as int);
        }
        if k < self.removed_entity_indices.len() && self.removed_entity_indices[k] == index {
        } else {
            self.removed_entity_indices.insert(k, index);
        }
    }

    /// Advances the world by one tick.
    ///
    /// Each entity that is not marked for removal gets its transition, in
    /// the order of the collection. It sees the entities as they were when
    /// the tick began, and the removal marks made so far. Afterwards the
    /// marked entities are removed, from the largest index down, each by
    /// moving the last entity into its place; the spawned ones are appended;
    /// and the marks are cleared. A tick in which no entity draws leaves the
    /// generator as it was.
    pub fn update(&mut self, randomizer: &mut Pcg32)
        requires
            old(self)@.wf(),
        ensures
            final(self)@.wf(),
            exists|draws: Seq<Draw>| #[trigger]
                is_tick(old(self)@, draws, final(self)@) && (!tick_draws(old(self)@, draws)
                    ==> *final(randomizer) == *old(randomizer)),
            old(self)@.all_on_grid() ==> final(self)@.all_on_grid(),
    {
        let ghost before = self@;
        let ghost generator = *randomizer;
        let ghost mut draws: Seq<Draw> = Seq::empty();
        let n: usize = self.entities.len();
        let mut next: Vec<Entity> = Vec::new();
        let mut spawned_entities: Vec<Entity> = Vec::new();
        let mut i: usize = 0;
        while i < n
            invariant
                i <= n,
                n == before.entities.len(),
                before.wf(),
                self@ == (WorldView { removed: self@.removed, ..before }),
                self@.wf(),
                draws.len() == i,
                next@.len() == i,
                forall|j: int| 0 <= j < i ==> valid_draw(before, #[trigger] draws[j]),
                tick_prefix(before, draws, i as nat) == (TickState {
                    next: next@,
                    spawned: spawned_entities@,
                    removed: self@.removed,
                }),
                before.all_on_grid() ==> on_grid(before, next@) && on_grid(before, spawned_entities@),
                !some_turn_draws(before, draws, i as nat) ==> *randomizer == generator,
            decreases n - i,
        {
            let ghost seen = self@;
            let ghost earlier = draws;
            if self.is_removed(i) {
                next.push(self.entities[i]);
                proof {
                    lemma_some_draw_is_valid(before);
                    draws = draws.push(Draw { cell: origin(), order: cardinal_order() });
                }
            } else {
                let outcome = self.entities[i].update(&*self, randomizer);
                proof {
                    let draw = choose|draw: Draw| #[trigger]
                        valid_draw(seen, draw) && outcome == seen.entities[i as int].transition(
                            seen,
                            draw,
                        );
                    draws = draws.push(draw);
                }
                match outcome {
                    Ok((entity, spawned_entity, removed_entity_index)) => {
                        next.push(entity);
                        if let Some(e) = spawned_entity {
                            spawned_entities.push(e);
                        }
                        if let Some(index) = removed_entity_index {
                            self.mark_removed(index);
                        }
                    },
                    Err(_) => {
                        next.push(self.entities[i]);
                    },
                }
            }
            proof {
                lemma_tick_prefix_ignores_later_draws(before, earlier, draws, i as nat);
                lemma_turns_ignore_later_draws(before, earlier, draws, i as nat);
                assert(seen == (WorldView { removed: seen.removed, ..before }));
                if !some_turn_draws(before, draws, (i + 1) as nat) {
                    assert(!turn_draws(before, draws, i as nat));
                    assert(!some_turn_draws(before, draws, i as nat)) by {
                        if some_turn_draws(before, draws, i as nat) {
                            let j = choose|j: nat| j < i && #[trigger] turn_draws(before, draws, j);
                            assert(j < i + 1 && turn_draws(before, draws, j));
                        }
                    }
                }
            }
            i += 1;
        }
        let ghost end = tick_prefix(before, draws, n as nat);
        assert(end.next == next@ && end.removed == self@.removed);
        assert(end.removed.skip(0) =~= end.removed);
        let mut m: usize = 0;
        while m < self.removed_entity_indices.len()
            invariant
                m <= self.removed_entity_indices@.len(),
                self@ == (WorldView { removed: end.removed, ..before }),
                self@.wf(),
                n == before.entities.len(),
                before.all_on_grid() ==> on_grid(before, next@),
                next@.len() == n - m,
                swap_removed(end.next, end.removed) == swap_removed(
                    next@,
                    end.removed.skip(m as int),
                ),
            decreases self.removed_entity_indices@.len() - m,
        {
            let index: usize = self.removed_entity_indices[m];
            proof {
                assert(self@.removed == end.removed);
                assert(self@.wf());
                assert(end.removed[m as int] < n);
                assert(forall|l: int| 0 <= l < m ==> end.removed[l] > end.removed[m as int]);
                assert(end.removed.skip(m as int)[0] == index);
                assert(end.removed.skip(m as int).drop_first() =~= end.removed.skip(m + 1));
                lemma_falling_marks_are_few(end.removed, m as int);
            }
            next.swap_remove(index);
            m += 1;
        }
        assert(end.removed.skip(m as int) =~= Seq::<usize>::empty());
        self.removed_entity_indices.clear();
        next.append(&mut spawned_entities);
        self.entities = next;
        assert(is_tick(before, draws, self@));
        assert(!tick_draws(before, draws) ==> *randomizer == generator);
    }

    /// Advances a running world by one tick. A paused world advances only
    /// if a manual update was requested, and the request is used up.
    pub fn update_if_active(&mut self, randomizer: &mut Pcg32)
        requires
            old(self)@.wf(),
        ensures
            final(self)@.wf(),
            old(self)@.active ==> exists|draws: Seq<Draw>| #[trigger]
                is_tick(old(self)@, draws, final(self)@) && (!tick_draws(old(self)@, draws)
                    ==> *final(randomizer) == *old(randomizer)),
            !old(self)@.active && old(self)@.manual_update_requested ==> exists|draws: Seq<Draw>| #[trigger]
                is_tick(old(self)@.without_request(), draws, final(self)@) && (!tick_draws(
                    old(self)@.without_request(),
                    draws,
                ) ==> *final(randomizer) == *old(randomizer)),
            !old(self)@.active && !old(self)@.manual_update_requested ==> final(self)@ == old(
                self,
            )@ && *final(randomizer) == *old(randomizer),
            old(self)@.all_on_grid() ==> final(self)@.all_on_grid(),
    {
        if self.active {
            self.update(randomizer);
        } else if self.manual_update_requested {
            self.manual_update_requested = false;
            assert(self@ == old(self)@.without_request());
            self.update(randomizer);
        }
    }

    pub fn pause(&mut self)
        ensures
            final(self)@ == (WorldView { active: false, ..old(self)@ }),
    {
        self.active = false;
    }

    pub fn unpause(&mut self)
        ensures
            final(self)@ == (WorldView { active: true, ..old(self)@ }),
    {
        self.active = true;
    }

    pub fn request_manual_update(&mut self)
        ensures
            final(self)@ == (WorldView { manual_update_requested: true, ..old(self)@ }),
    {
        self.manual_update_requested = true;
    }
}

} // verus!
