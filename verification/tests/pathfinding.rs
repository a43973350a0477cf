use garden::world::error::SimulationError;
use garden::world::garden_pathfinding::{a_star_pathfind, is_goal, next_step, successors};
use garden::world::{manhattan_distance, Position, World};

#[test]
fn test_default() {
    let world = &World::new(2, 2);
    let cur_pos = &Position { x: 0, y: 0 };
    let goal_pos = &Position { x: 1, y: 1 };

    let (_, next_pos) = a_star_pathfind(cur_pos, goal_pos, &vec![], world).unwrap();

    let expected_pos = Position { x: 1, y: 0 };
    assert_eq!(next_pos, expected_pos);
}

#[test]
fn test_ignored_position() {
    let world = &World::new(2, 2);
    let cur_pos = &Position { x: 0, y: 0 };
    let goal_pos = &Position { x: 1, y: 1 };
    let ignored_position = &vec![Position { x: 1, y: 0 }];

    let (_, next_pos) = a_star_pathfind(cur_pos, goal_pos, ignored_position, world).unwrap();

    let expected_pos = Position { x: 0, y: 1 };
    assert_eq!(next_pos, expected_pos);
}

#[test]
fn path_to_self_costs_one_and_stays() {
    for (width, height) in [(1, 1), (1, 7), (5, 3), (30, 30)] {
        let world = World::new(width, height);
        for x in 0..width {
            for y in 0..height {
                let p = Position { x, y };
                assert_eq!(a_star_pathfind(&p, &p, &vec![], &world), Ok((1, p)));
            }
        }
    }
}

#[test]
fn path_cost_is_the_manhattan_distance_on_a_free_grid() {
    let world = World::new(6, 5);
    let start = Position { x: 0, y: 4 };
    let goal = Position { x: 5, y: 1 };
    let (cost, step) = a_star_pathfind(&start, &goal, &vec![], &world).unwrap();
    assert_eq!(cost, 8);
    assert_eq!(manhattan_distance(&start, &step), 1);
    assert_eq!(manhattan_distance(&step, &goal), 7);
}

#[test]
fn path_goes_around_ignored_cells() {
    let world = World::new(3, 3);
    let start = Position { x: 0, y: 0 };
    let goal = Position { x: 2, y: 0 };
    let ignored = vec![Position { x: 1, y: 0 }, Position { x: 1, y: 1 }];
    let (cost, step) = a_star_pathfind(&start, &goal, &ignored, &world).unwrap();
    assert_eq!(cost, 6);
    assert_eq!(step, Position { x: 0, y: 1 });
}

#[test]
fn adjacent_goal_costs_one() {
    let world = World::new(4, 4);
    let start = Position { x: 2, y: 2 };
    let goal = Position { x: 2, y: 3 };
    assert_eq!(a_star_pathfind(&start, &goal, &vec![], &world), Ok((1, goal)));
}

#[test]
fn walled_off_goal_is_unreachable() {
    let world = World::new(3, 3);
    let start = Position { x: 0, y: 0 };
    let goal = Position { x: 2, y: 2 };
    let ignored = vec![Position { x: 1, y: 2 }, Position { x: 2, y: 1 }];
    assert_eq!(
        a_star_pathfind(&start, &goal, &ignored, &world),
        Err(SimulationError::PathUnreachable)
    );
}

#[test]
fn goal_off_the_grid_is_unreachable() {
    let world = World::new(3, 3);
    let start = Position { x: 0, y: 0 };
    let goal = Position { x: 3, y: 0 };
    assert_eq!(
        a_star_pathfind(&start, &goal, &vec![], &world),
        Err(SimulationError::PathUnreachable)
    );
}

#[test]
fn steps_never_leave_the_grid() {
    let world = World::new(4, 3);
    for sx in 0..4 {
        for sy in 0..3 {
            for gx in 0..4 {
                for gy in 0..3 {
                    let start = Position { x: sx, y: sy };
                    let goal = Position { x: gx, y: gy };
                    let (cost, step) = a_star_pathfind(&start, &goal, &vec![], &world).unwrap();
                    assert!(0 <= step.x && step.x < 4 && 0 <= step.y && step.y < 3);
                    let distance = manhattan_distance(&start, &goal);
                    assert_eq!(cost, if distance == 0 { 1 } else { distance });
                }
            }
        }
    }
}

#[test]
fn successors_come_in_the_order_north_east_south_west() {
    let p = Position { x: 1, y: 1 };
    assert_eq!(
        successors(&p, &vec![], 3, 3),
        vec![
            (Position { x: 1, y: 0 }, 1),
            (Position { x: 2, y: 1 }, 1),
            (Position { x: 1, y: 2 }, 1),
            (Position { x: 0, y: 1 }, 1),
        ]
    );
}

#[test]
fn successors_leave_out_ignored_cells_and_the_outside() {
    let corner = Position { x: 0, y: 0 };
    assert_eq!(
        successors(&corner, &vec![Position { x: 1, y: 0 }], 2, 2),
        vec![(Position { x: 0, y: 1 }, 1)]
    );
    let far = Position { x: i32::MAX, y: i32::MIN };
    assert_eq!(successors(&far, &vec![], 2, 2), vec![]);
    let beside = Position { x: -1, y: 0 };
    assert_eq!(successors(&beside, &vec![], 2, 2), vec![(Position { x: 0, y: 0 }, 1)]);
}

#[test]
fn next_step_of_a_search() {
    let a = Position { x: 0, y: 0 };
    let b = Position { x: 0, y: 1 };
    let c = Position { x: 0, y: 2 };
    assert_eq!(next_step(None), Err(SimulationError::PathUnreachable));
    assert_eq!(next_step(Some((vec![a], 0))), Ok((1, a)));
    assert_eq!(next_step(Some((vec![a, b], 1))), Ok((1, b)));
    assert_eq!(next_step(Some((vec![a, b, c], 2))), Ok((2, b)));
}

#[test]
fn manhattan_distance_of_far_positions() {
    let a = Position { x: i32::MIN, y: i32::MAX };
    let b = Position { x: i32::MAX, y: i32::MIN };
    assert_eq!(manhattan_distance(&a, &b), 2 * (u32::MAX as i64));
    assert_eq!(manhattan_distance(&a, &a), 0);
    assert_eq!(manhattan_distance(&Position { x: 3, y: -4 }, &Position { x: -1, y: 2 }), 10);
    assert!(is_goal(&a, &a));
    assert!(!is_goal(&a, &b));
}
