use garden::world::eater::{Desire, Eater, EaterGoal, Pursuit};
use garden::world::eater_spawner::EaterSpawner;
use garden::world::entity::{cardinal_directions, Entity, Updateable};
use garden::world::error::SimulationError;
use garden::world::food::Food;
use garden::world::food_spawner::FoodSpawner;
use garden::world::{Direction, Position, World};
use garden::{Config, TICK_RATE_MS};
use rand_core::SeedableRng;

fn seeded() -> rand_pcg::Pcg32 {
    rand_pcg::Pcg32::from_seed(*b"somebody once to")
}

#[test]
fn desires_are_clamped() {
    let mut eater = Eater::new(Position { x: 0, y: 0 });
    assert_eq!(eater.get_desire(Desire::Hunger), 0);
    assert_eq!(eater.get_desire_threshold(Desire::Hunger), 20);
    assert_eq!(eater.increment_desire(Desire::Hunger, 1), 1);
    assert_eq!(eater.increment_desire(Desire::Hunger, -20), 0);
    assert_eq!(eater.increment_desire(Desire::Hunger, 127), 127);
    assert_eq!(eater.increment_desire(Desire::Hunger, 1), 127);
    assert_eq!(eater.increment_desire(Desire::Hunger, -20), 107);
    eater.set_desire(Desire::Hunger, -128);
    assert_eq!(eater.increment_desire(Desire::Hunger, -128), 0);
    assert_eq!(eater.get_desire(Desire::Hunger), 0);
}

#[test]
fn a_tick_ages_the_eater() {
    let mut eater = Eater::new(Position { x: 1, y: 2 });
    eater.hunger = 7;
    eater.age = 10;
    eater.last_reproduced = 3;
    assert_eq!(
        eater.tick(),
        Eater {
            position: Position { x: 1, y: 2 },
            hunger: 8,
            hunger_threshold: 20,
            age: 11,
            last_reproduced: 4
        }
    );
    eater.age = i32::MAX;
    eater.last_reproduced = i32::MAX;
    eater.hunger = 127;
    let aged = eater.tick();
    assert_eq!((aged.hunger, aged.age, aged.last_reproduced), (127, i32::MAX, i32::MAX));
}

#[test]
fn goal_is_selected_after_the_tick_has_aged_the_eater() {
    let mut world = World::new(10, 10);
    world.add_entity(Entity::Food(Food::new(Position { x: 5, y: 5 })));
    let mut eater = Eater::new(Position { x: 0, y: 0 });
    eater.hunger = 19;
    world.add_entity(Entity::Eater(eater));
    assert_eq!(eater.select_goal(&world), EaterGoal::Wander);
    // one tick on the hunger is 20: the eater sets out for the food
    let order = cardinal_directions();
    let (next, spawned, removed) = eater.update_with(&world, &order).unwrap();
    assert_eq!(spawned, None);
    assert_eq!(removed, None);
    match next {
        Entity::Eater(next) => {
            assert_eq!(next.hunger, 20);
            assert!(
                next.position == Position { x: 1, y: 0 } || next.position == Position { x: 0, y: 1 }
            );
        }
        _ => panic!("an eater was expected"),
    }
}

#[test]
fn dying_eater_that_is_not_in_the_world_is_an_invariant_violation() {
    let world = World::new(10, 10);
    let mut eater = Eater::new(Position { x: 3, y: 3 });
    eater.hunger = 100;
    assert_eq!(
        eater.update_with(&world, &cardinal_directions()),
        Err(SimulationError::InvariantViolation)
    );
    assert_eq!(eater.update(&world, &mut seeded()), Err(SimulationError::InvariantViolation));
    assert_eq!(
        Entity::Eater(eater).update(&world, &mut seeded()),
        Err(SimulationError::InvariantViolation)
    );
}

#[test]
fn dying_eater_marks_itself() {
    let mut world = World::new(10, 10);
    world.add_entity(Entity::Food(Food::new(Position { x: 3, y: 3 })));
    let mut eater = Eater::new(Position { x: 3, y: 3 });
    eater.hunger = 120;
    world.add_entity(Entity::Eater(eater));
    let (next, spawned, removed) = eater.update_with(&world, &cardinal_directions()).unwrap();
    // the food on its cell stays, and nothing is eaten
    assert_eq!(next, Entity::Eater(eater.tick()));
    assert_eq!(spawned, None);
    assert_eq!(removed, Some(1));
    assert_eq!(eater.find_index(&world), Some(1));
}

#[test]
fn dying_eater_on_the_spawners_cell_marks_itself() {
    let mut world = World::new(10, 10);
    world.add_entity(Entity::FoodSpawner(FoodSpawner::new(0, 10)));
    let mut eater = Eater::new(Position { x: 0, y: 0 });
    eater.hunger = 100;
    world.add_entity(Entity::Eater(eater));
    assert_eq!(eater.find_index(&world), Some(1));
    world.update(&mut seeded());
    assert_eq!(world.entities(), &vec![Entity::FoodSpawner(FoodSpawner::new(1, 10))]);
    let shown: Vec<(Position, String)> =
        world.render().into_iter().map(|e| (e.position, e.color)).collect();
    assert_eq!(shown, vec![(Position { x: 0, y: 0 }, String::from("#009933"))]);
}

#[test]
fn dying_twins_both_leave_the_world() {
    let mut world = World::new(10, 10);
    let mut eater = Eater::new(Position { x: 4, y: 4 });
    eater.age = 1001;
    world.add_entity(Entity::Food(Food::new(Position { x: 4, y: 4 })));
    world.add_entity(Entity::Eater(eater));
    world.add_entity(Entity::Eater(eater));
    world.update(&mut seeded());
    assert_eq!(world.entities(), &vec![Entity::Food(Food::new(Position { x: 4, y: 4 }))]);
}

#[test]
fn eater_off_the_world_has_no_offspring_on_its_own_cell() {
    let alone = World::new(1, 1);
    let mut parent = Eater::new(Position { x: 0, y: 0 });
    parent.age = 50;
    parent.last_reproduced = 50;
    let waiting = Eater {
        position: Position { x: 0, y: 0 },
        hunger: 1,
        hunger_threshold: 20,
        age: 51,
        last_reproduced: 51,
    };
    assert_eq!(parent.find_free_cell(&alone, &cardinal_directions()), None);
    assert_eq!(
        parent.update_with(&alone, &cardinal_directions()),
        Ok((Entity::Eater(waiting), None, None))
    );
    // at the edge of a wider world the steps that stop there are passed over
    let wide = World::new(2, 1);
    let order = [Direction::Up, Direction::Left, Direction::Down, Direction::Right];
    assert_eq!(parent.find_free_cell(&wide, &order), Some(Position { x: 1, y: 0 }));
    assert_eq!(
        parent.update_with(&wide, &order),
        Ok((
            Entity::Eater(Eater { last_reproduced: 0, ..waiting }),
            Some(Entity::Eater(Eater::new(Position { x: 1, y: 0 }))),
            None
        ))
    );
}

#[test]
fn hunger_is_stilled_only_by_food() {
    let mut world = World::new(10, 10);
    world.add_entity(Entity::Food(Food::new(Position { x: 3, y: 4 })));
    let mut eater = Eater::new(Position { x: 3, y: 3 });
    eater.hunger = 60;
    world.add_entity(Entity::Eater(eater));
    let (next, spawned, removed) = eater.update_with(&world, &cardinal_directions()).unwrap();
    assert_eq!((spawned, removed), (None, Some(0)));
    assert_eq!(next, Entity::Eater(Eater { hunger: 41, age: 1, last_reproduced: 1, ..eater }));
    let mut far = World::new(10, 10);
    far.add_entity(Entity::Food(Food::new(Position { x: 3, y: 9 })));
    far.add_entity(Entity::Eater(eater));
    let (next, spawned, removed) = eater.update_with(&far, &cardinal_directions()).unwrap();
    assert_eq!((spawned, removed), (None, None));
    assert_eq!(
        next,
        Entity::Eater(Eater {
            position: Position { x: 3, y: 4 },
            hunger: 61,
            age: 1,
            last_reproduced: 1,
            ..eater
        })
    );
}

#[test]
fn wandering_tries_the_directions_in_the_given_order() {
    let mut world = World::new(3, 3);
    let eater = Eater::new(Position { x: 1, y: 1 });
    world.add_entity(Entity::Eater(eater));
    world.add_entity(Entity::Food(Food::new(Position { x: 1, y: 0 })));
    let order = [Direction::Up, Direction::Left, Direction::Down, Direction::Right];
    assert_eq!(eater.find_free_cell(&world, &order), Some(Position { x: 0, y: 1 }));
    let (next, spawned, removed) = eater.update_with(&world, &order).unwrap();
    assert_eq!(next.get_position(), Position { x: 0, y: 1 });
    assert_eq!((spawned, removed), (None, None));
    let order = [Direction::Down, Direction::Up, Direction::Left, Direction::Right];
    assert_eq!(eater.find_free_cell(&world, &order), Some(Position { x: 1, y: 2 }));
    world.add_entity(Entity::Food(Food::new(Position { x: 0, y: 1 })));
    world.add_entity(Entity::Food(Food::new(Position { x: 1, y: 2 })));
    world.add_entity(Entity::Food(Food::new(Position { x: 2, y: 1 })));
    assert_eq!(eater.find_free_cell(&world, &order), None);
    assert_eq!(
        eater.act(&world, EaterGoal::Wander, &order),
        Ok((Entity::Eater(eater.tick()), None, None))
    );
    assert_eq!(
        eater.act(&world, EaterGoal::Reproduce, &order),
        Ok((Entity::Eater(eater.tick()), None, None))
    );
}

#[test]
fn seeking_food() {
    let mut world = World::new(3, 3);
    let eater = Eater::new(Position { x: 0, y: 0 });
    world.add_entity(Entity::Eater(eater));
    let near = Position { x: 0, y: 1 };
    let far = Position { x: 2, y: 0 };
    assert_eq!(eater.seek(&near, &world), Pursuit::Eat);
    assert_eq!(eater.seek(&eater.position, &world), Pursuit::Eat);
    assert_eq!(eater.seek(&far, &world), Pursuit::MoveTo(Position { x: 1, y: 0 }));
    assert_eq!(eater.pathfind(&far, &vec![], &world), Ok((2, Position { x: 1, y: 0 })));
    // the direct way is taken: the eater goes round
    world.add_entity(Entity::Eater(Eater::new(Position { x: 1, y: 0 })));
    assert_eq!(eater.seek(&far, &world), Pursuit::MoveTo(Position { x: 0, y: 1 }));
    // both neighbours taken: no way is left
    world.add_entity(Entity::Eater(Eater::new(Position { x: 0, y: 1 })));
    assert_eq!(eater.seek(&far, &world), Pursuit::Stay);
    assert_eq!(eater.seek(&Position { x: 5, y: 5 }, &world), Pursuit::Stay);
    assert_eq!(
        eater.act(&world, EaterGoal::GetFood(1), &cardinal_directions()),
        Ok((Entity::Eater(Eater { hunger: 0, age: 1, last_reproduced: 1, ..eater }), None, Some(1)))
    );
}

#[test]
fn spawners_for_a_given_cell() {
    let mut world = World::new(5, 5);
    world.add_entity(Entity::Food(Food::new(Position { x: 1, y: 1 })));
    let due = FoodSpawner::new(4, 5);
    assert_eq!(
        due.update_with(&world, Position { x: 2, y: 2 }),
        (
            Entity::FoodSpawner(FoodSpawner::new(0, 5)),
            Some(Entity::Food(Food::new(Position { x: 2, y: 2 }))),
            None
        )
    );
    assert_eq!(
        due.update_with(&world, Position { x: 1, y: 1 }),
        (Entity::FoodSpawner(FoodSpawner::new(0, 5)), None, None)
    );
    assert_eq!(
        FoodSpawner::new(3, 5).update_with(&world, Position { x: 2, y: 2 }),
        (Entity::FoodSpawner(FoodSpawner::new(4, 5)), None, None)
    );
    let waiting = EaterSpawner::new(20);
    assert!(!waiting.due());
    assert_eq!(
        waiting.update_with(&world, Position { x: 2, y: 2 }),
        (Entity::EaterSpawner(EaterSpawner::new(21)), None, None)
    );
    let ready = EaterSpawner::new(21);
    assert!(ready.due());
    assert_eq!(
        ready.update_with(&world, Position { x: 2, y: 2 }),
        (
            Entity::EaterSpawner(EaterSpawner::new(0)),
            Some(Entity::Eater(Eater::new(Position { x: 2, y: 2 }))),
            None
        )
    );
    assert_eq!(
        ready.update_with(&world, Position { x: 1, y: 1 }),
        (Entity::EaterSpawner(EaterSpawner::new(0)), None, None)
    );
    world.add_entity(Entity::Eater(Eater::new(Position { x: 3, y: 3 })));
    assert_eq!(
        waiting.update_with(&world, Position { x: 2, y: 2 }),
        (Entity::EaterSpawner(EaterSpawner::new(20)), None, None)
    );
    assert_eq!(
        EaterSpawner::new(i32::MAX).update_with(&world, Position { x: 3, y: 3 }),
        (Entity::EaterSpawner(EaterSpawner::new(0)), None, None)
    );
}

#[test]
fn food_stays_as_it_is() {
    let world = World::new(5, 5);
    let food = Food::new(Position { x: 1, y: 1 });
    assert_eq!(food.update(&world, &mut seeded()), Ok((Entity::Food(food), None, None)));
}

#[test]
fn entities_that_draw_nothing_leave_the_generator_as_it_was() {
    let mut world = World::new(5, 5);
    world.add_entity(Entity::Food(Food::new(Position { x: 4, y: 4 })));
    let mut hungry = Eater::new(Position { x: 1, y: 1 });
    hungry.hunger = 50;
    world.add_entity(Entity::Eater(hungry));
    let mut dying = Eater::new(Position { x: 2, y: 2 });
    dying.hunger = 100;
    world.add_entity(Entity::Eater(dying));
    let mut randomizer = seeded();
    Food::new(Position { x: 1, y: 1 }).update(&world, &mut randomizer).unwrap();
    FoodSpawner::new(0, 10).update(&world, &mut randomizer).unwrap();
    EaterSpawner::new(20).update(&world, &mut randomizer).unwrap();
    hungry.update(&world, &mut randomizer).unwrap();
    dying.update(&world, &mut randomizer).unwrap();
    assert_eq!(randomizer, seeded());
    // a spawner that is due and an eater that wanders draw
    FoodSpawner::new(9, 10).update(&world, &mut randomizer).unwrap();
    assert_ne!(randomizer, seeded());
    let mut randomizer = seeded();
    Eater::new(Position { x: 0, y: 0 }).update(&world, &mut randomizer).unwrap();
    assert_ne!(randomizer, seeded());
}

#[test]
fn a_tick_without_a_draw_leaves_the_generator_as_it_was() {
    let mut world = World::new(5, 5);
    world.add_entity(Entity::Food(Food::new(Position { x: 4, y: 4 })));
    world.add_entity(Entity::FoodSpawner(FoodSpawner::new(0, 10)));
    let mut hungry = Eater::new(Position { x: 1, y: 1 });
    hungry.hunger = 50;
    world.add_entity(Entity::Eater(hungry));
    let mut randomizer = seeded();
    world.update(&mut randomizer);
    assert_eq!(randomizer, seeded());
    world.pause();
    let before = world.entities().clone();
    world.update_if_active(&mut randomizer);
    assert_eq!(world.entities(), &before);
    assert_eq!(randomizer, seeded());
}

#[test]
fn drawn_cells_lie_on_the_grid() {
    let world = World::new(1, 1);
    let mut randomizer = seeded();
    for _ in 0..50 {
        let (_, spawned, _) = FoodSpawner::new(0, 1).update(&world, &mut randomizer).unwrap();
        assert_eq!(spawned, Some(Entity::Food(Food::new(Position { x: 0, y: 0 }))));
    }
    let wide = World::new(7, 2);
    for _ in 0..200 {
        match EaterSpawner::new(50).update(&wide, &mut randomizer).unwrap() {
            (_, Some(Entity::Eater(eater)), None) => {
                assert!(0 <= eater.position.x && eater.position.x < 7);
                assert!(0 <= eater.position.y && eater.position.y < 2);
            }
            _ => panic!("an eater was expected"),
        }
    }
}

#[test]
fn configuration() {
    assert_eq!(Config::new(None).host_address, "localhost");
    assert_eq!(Config::new(Some(String::from("example.org"))).host_address, "example.org");
    assert_eq!(TICK_RATE_MS, 100);
}
