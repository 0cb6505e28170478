use robot_sim::collection::{collect_resources, nearest_source, remove_source};
use robot_sim::exploration::{explore_map, nearest_unexplored, reveal_around};
use robot_sim::render::{
    render_buffer, BASE_COLOR, BUSY_COLOR, ENERGY_COLOR, EXPLORING_COLOR, FLOOR_COLOR, FOG_COLOR, MINERAL_COLOR,
    OBSTACLE_COLOR,
};
use robot_sim::simulation::{recall_collectors, tick, update_robot};
use robot_sim::terrain::{
    accepts_site, border_terrain, consider_site, generate_map, holds_site, threshold_terrain, GenerationError, RESOURCE_COUNT,
};
use robot_sim::world::{is_map_fully_explored, Robot, RobotState, Task, World};

fn open_world(explored: bool) -> World {
    World {
        width: 10,
        height: 10,
        obstacles: vec![vec![false; 10]; 10],
        energy: vec![],
        minerals: vec![],
        base: (5, 5),
        explored: vec![vec![explored; 10]; 10],
    }
}

fn robot_in(x: usize, y: usize, task: Task, state: RobotState) -> Robot {
    let mut r = Robot::new(x, y, task);
    r.state = state;
    r
}

#[test]
fn fully_explored_only_when_every_cell_is() {
    let mut map = open_world(true);
    assert!(is_map_fully_explored(&map));
    map.explored[9][9] = false;
    assert!(!is_map_fully_explored(&map));
    let empty = open_world(false);
    assert!(!is_map_fully_explored(&empty));
}

#[test]
fn explore_step_reveals_neighborhood_of_new_position() {
    let mut map = open_world(true);
    map.explored[0][9] = false;
    map.explored[9][0] = false;
    let mut robot = Robot::new(6, 2, Task::Explore);
    explore_map(&mut robot, &mut map);
    assert_eq!((robot.x, robot.y), (7, 1));
    for y in 0..3 {
        for x in 6..9 {
            assert!(map.explored[y][x]);
        }
    }
    assert!(!map.explored[0][9]);
    assert!(!map.explored[9][0]);
}

#[test]
fn explore_step_clamps_at_the_corner() {
    let mut map = open_world(false);
    let mut robot = Robot::new(0, 0, Task::Explore);
    explore_map(&mut robot, &mut map);
    assert_eq!((robot.x, robot.y), (0, 0));
    let revealed: usize = map.explored.iter().map(|row| row.iter().filter(|&&e| e).count()).sum();
    assert_eq!(revealed, 4);
    assert!(map.explored[1][1]);
}

#[test]
fn explore_step_is_a_no_op_when_all_revealed() {
    let mut map = open_world(true);
    let mut robot = Robot::new(3, 4, Task::Explore);
    explore_map(&mut robot, &mut map);
    assert_eq!((robot.x, robot.y), (3, 4));
}

#[test]
fn nearest_unexplored_breaks_ties_in_scan_order() {
    let mut map = open_world(true);
    map.explored[5][6] = false;
    map.explored[5][4] = false;
    assert_eq!(nearest_unexplored(&map, 5, 5), Some((4, 5)));
    map.explored[4][5] = false;
    map.explored[6][5] = false;
    assert_eq!(nearest_unexplored(&map, 5, 5), Some((5, 4)));
    assert_eq!(nearest_unexplored(&open_world(true), 5, 5), None);
}

#[test]
fn reveal_around_marks_three_by_three() {
    let mut map = open_world(false);
    reveal_around(&mut map, 4, 4);
    for y in 0..10 {
        for x in 0..10 {
            let inside = (3..=5).contains(&x) && (3..=5).contains(&y);
            assert_eq!(map.explored[y][x], inside);
        }
    }
}

#[test]
fn scenario_a_collect_mineral_on_base() {
    let mut map = open_world(false);
    map.minerals = vec![(5, 5)];
    let mut robots = vec![robot_in(5, 5, Task::CollectMinerals, RobotState::Collecting)];
    tick(&mut map, &mut robots);
    assert_eq!(robots[0].minerals, 1);
    assert!(map.minerals.is_empty());
    assert_eq!(robots[0].state, RobotState::Returning);
}

#[test]
fn scenario_b_explore_toward_last_cell() {
    let mut map = open_world(true);
    map.explored[0][0] = false;
    let mut robot = robot_in(5, 5, Task::Explore, RobotState::Exploring);
    explore_map(&mut robot, &mut map);
    assert_eq!((robot.x, robot.y), (4, 4));
    // One step from (5, 5) reveals only the cells around (4, 4).
    assert!(!map.explored[0][0]);
    assert!(!is_map_fully_explored(&map));
    for _ in 0..3 {
        explore_map(&mut robot, &mut map);
    }
    assert_eq!((robot.x, robot.y), (1, 1));
    assert!(map.explored[0][0]);
    assert!(is_map_fully_explored(&map));
}

#[test]
fn scenario_c_explorer_home_recalls_collectors() {
    let mut map = open_world(false);
    let mut robots = vec![
        robot_in(4, 4, Task::Explore, RobotState::Returning),
        robot_in(1, 1, Task::CollectEnergy, RobotState::Exploring),
        robot_in(8, 8, Task::CollectMinerals, RobotState::Exploring),
    ];
    tick(&mut map, &mut robots);
    assert_eq!((robots[0].x, robots[0].y), (5, 5));
    assert_eq!(robots[0].state, RobotState::Returning);
    assert_eq!(robots[1].state, RobotState::Collecting);
    assert_eq!(robots[2].state, RobotState::Collecting);
}

#[test]
fn explorer_already_home_raises_no_signal() {
    let mut map = open_world(false);
    let mut robots = vec![
        robot_in(5, 5, Task::Explore, RobotState::Returning),
        robot_in(1, 1, Task::CollectEnergy, RobotState::Exploring),
    ];
    tick(&mut map, &mut robots);
    assert_eq!(robots[0].state, RobotState::Returning);
    assert_eq!(robots[1].state, RobotState::Exploring);
}

#[test]
fn explorer_never_collects() {
    let mut map = open_world(true);
    let mut explorer = robot_in(2, 2, Task::Explore, RobotState::Exploring);
    assert!(!update_robot(&mut explorer, &mut map));
    assert_eq!(explorer.state, RobotState::Returning);
    let mut signals = 0;
    for _ in 0..10 {
        if update_robot(&mut explorer, &mut map) {
            signals += 1;
        }
        assert_ne!(explorer.state, RobotState::Collecting);
    }
    assert_eq!(signals, 1);
    assert_eq!((explorer.x, explorer.y), (5, 5));
    let mut robots = vec![explorer, robot_in(0, 0, Task::CollectEnergy, RobotState::Returning)];
    recall_collectors(&mut robots);
    assert_eq!(robots[0].state, RobotState::Returning);
    assert_eq!(robots[1].state, RobotState::Collecting);
}

#[test]
fn collector_cycle_returns_then_collects() {
    let mut map = open_world(true);
    map.energy = vec![(7, 5)];
    let mut robot = robot_in(5, 5, Task::CollectEnergy, RobotState::Exploring);
    update_robot(&mut robot, &mut map);
    assert_eq!(robot.state, RobotState::Returning);
    update_robot(&mut robot, &mut map);
    assert_eq!(robot.state, RobotState::Collecting);
    update_robot(&mut robot, &mut map);
    assert_eq!((robot.x, robot.y), (6, 5));
    update_robot(&mut robot, &mut map);
    assert_eq!((robot.x, robot.y), (7, 5));
    update_robot(&mut robot, &mut map);
    assert_eq!(robot.energy, 1);
    assert_eq!(robot.state, RobotState::Returning);
    assert!(map.energy.is_empty());
    update_robot(&mut robot, &mut map);
    assert_eq!((robot.x, robot.y), (6, 5));
    assert_eq!(robot.state, RobotState::Returning);
    update_robot(&mut robot, &mut map);
    assert_eq!(robot.state, RobotState::Collecting);
    update_robot(&mut robot, &mut map);
    assert_eq!(robot.state, RobotState::Returning);
    assert_eq!(robot.energy, 1);
}

#[test]
fn a_source_is_collected_once() {
    let mut map = open_world(true);
    map.minerals = vec![(3, 3), (9, 9)];
    let mut robot = robot_in(3, 3, Task::CollectMinerals, RobotState::Collecting);
    collect_resources(&mut robot, &mut map);
    assert_eq!(robot.minerals, 1);
    assert_eq!(map.minerals, vec![(9, 9)]);
    robot.state = RobotState::Collecting;
    collect_resources(&mut robot, &mut map);
    assert_eq!(robot.minerals, 1);
    assert_eq!((robot.x, robot.y), (4, 4));
    let mut other = robot_in(3, 3, Task::CollectMinerals, RobotState::Collecting);
    collect_resources(&mut other, &mut map);
    assert_eq!(other.minerals, 0);
}

#[test]
fn first_robot_in_order_wins_a_shared_source() {
    let mut map = open_world(true);
    map.energy = vec![(2, 2)];
    let mut robots = vec![
        robot_in(2, 2, Task::CollectEnergy, RobotState::Collecting),
        robot_in(2, 2, Task::CollectEnergy, RobotState::Collecting),
    ];
    tick(&mut map, &mut robots);
    assert_eq!(robots[0].energy, 1);
    assert_eq!(robots[1].energy, 0);
    assert_eq!(robots[1].state, RobotState::Returning);
}

#[test]
fn collector_with_no_sources_turns_back() {
    let mut map = open_world(true);
    map.energy = vec![];
    map.minerals = vec![(1, 1)];
    let mut robot = robot_in(4, 4, Task::CollectEnergy, RobotState::Collecting);
    collect_resources(&mut robot, &mut map);
    assert_eq!(robot.state, RobotState::Returning);
    assert_eq!((robot.x, robot.y), (4, 4));
    assert_eq!(map.minerals, vec![(1, 1)]);
}

#[test]
fn nearest_source_prefers_the_earliest_on_ties() {
    let sources = vec![(9, 9), (3, 5), (7, 5), (5, 3)];
    assert_eq!(nearest_source(&sources, 5, 5, 10, 10), Some(1));
    assert_eq!(nearest_source(&vec![], 5, 5, 10, 10), None);
}

#[test]
fn remove_source_drops_every_copy() {
    let mut sources = vec![(1, 1), (2, 2), (1, 1), (3, 3)];
    remove_source(&mut sources, (1, 1));
    assert_eq!(sources, vec![(2, 2), (3, 3)]);
}

#[test]
fn checked_move_stays_off_obstacles() {
    let mut map = open_world(true);
    map.obstacles[4][4] = true;
    let mut robot = Robot::new(5, 5, Task::CollectEnergy);
    robot.move_towards_checked((0, 0), &map);
    assert_eq!((robot.x, robot.y), (5, 5));
    robot.move_towards_checked((5, 0), &map);
    assert_eq!((robot.x, robot.y), (5, 4));
    let mut free = Robot::new(5, 5, Task::CollectEnergy);
    free.move_towards((0, 0));
    assert_eq!((free.x, free.y), (4, 4));
}

#[test]
fn border_terrain_is_the_outer_ring() {
    let g = border_terrain(4, 3);
    assert_eq!(
        g,
        vec![vec![true, true, true, true], vec![true, false, false, true], vec![true, true, true, true]]
    );
}

#[test]
fn threshold_terrain_marks_samples_above_half() {
    let samples = vec![vec![500, 501, -900], vec![1000, 0, 499]];
    let g = threshold_terrain(&samples);
    assert_eq!(g, vec![vec![false, true, false], vec![true, false, false]]);
}

#[test]
fn generation_places_valid_sources() {
    let map = generate_map(20, 20, &border_terrain(20, 20), 3).unwrap();
    assert_eq!(map.base, (10, 10));
    assert_eq!(map.energy.len(), RESOURCE_COUNT);
    assert_eq!(map.minerals.len(), RESOURCE_COUNT);
    for (i, p) in map.energy.iter().enumerate() {
        assert!(p.0 < 20 && p.1 < 20);
        assert_ne!(*p, map.base);
        assert!(!map.minerals.contains(p));
        assert!(!map.energy[i + 1..].contains(p));
    }
    for (i, p) in map.minerals.iter().enumerate() {
        assert!(p.0 < 20 && p.1 < 20);
        assert_ne!(*p, map.base);
        assert!(!map.minerals[i + 1..].contains(p));
    }
    assert!(map.explored.iter().all(|row| row.iter().all(|&e| !e)));
}

#[test]
fn generation_keeps_the_base_clear() {
    let terrain = vec![vec![true; 5]; 5];
    let map = generate_map(5, 5, &terrain, 1).unwrap();
    assert!(!map.obstacles[2][2]);
    assert!(map.obstacles[0][0]);
    assert!(map.obstacles[2][3]);
}

#[test]
fn generation_is_deterministic() {
    let samples: Vec<Vec<i32>> =
        (0..12).map(|y| (0..15).map(|x| ((x * 37 + y * 91) % 1000) as i32).collect()).collect();
    let terrain = threshold_terrain(&samples);
    let a = generate_map(15, 12, &terrain, 11).unwrap();
    let b = generate_map(15, 12, &terrain, 11).unwrap();
    let c = generate_map(15, 12, &terrain, 12).unwrap();
    assert_eq!(a.obstacles, b.obstacles);
    assert_eq!(a.obstacles, c.obstacles);
    assert_eq!(a.energy, b.energy);
    assert_eq!(a.minerals, b.minerals);
}

#[test]
fn generation_fails_without_room_for_energy() {
    let terrain = vec![vec![false; 1]; 1];
    assert_eq!(generate_map(1, 1, &terrain, 5).err(), Some(GenerationError::EnergyPlacement));
}

#[test]
fn generation_fails_without_room_for_minerals() {
    let terrain = vec![vec![false; 3]; 4];
    assert_eq!(generate_map(3, 4, &terrain, 5).err(), Some(GenerationError::MineralPlacement));
}

#[test]
fn placement_rejects_base_and_taken_cells() {
    let placed = vec![(1, 2)];
    let rivals = vec![(3, 4)];
    assert!(!accepts_site((5, 5), (5, 5), &placed, &rivals));
    assert!(!accepts_site((1, 2), (5, 5), &placed, &rivals));
    assert!(!accepts_site((3, 4), (5, 5), &placed, &rivals));
    assert!(accepts_site((2, 1), (5, 5), &placed, &rivals));
    assert!(holds_site(&placed, (1, 2)));
    assert!(!holds_site(&placed, (2, 1)));
}

#[test]
fn generation_fills_a_grid_with_just_enough_room() {
    let terrain = vec![vec![false; 3]; 7];
    let map = generate_map(3, 7, &terrain, 9).unwrap();
    let mut cells: Vec<(usize, usize)> = map.energy.iter().chain(map.minerals.iter()).cloned().collect();
    cells.push(map.base);
    cells.sort();
    cells.dedup();
    assert_eq!(cells.len(), 21);
}

#[test]
fn recall_reaches_collectors_listed_before_the_explorer() {
    let mut map = open_world(true);
    let mut robots = vec![
        robot_in(1, 1, Task::CollectEnergy, RobotState::Returning),
        robot_in(5, 4, Task::Explore, RobotState::Returning),
    ];
    tick(&mut map, &mut robots);
    assert_eq!((robots[1].x, robots[1].y), (5, 5));
    assert_eq!(robots[0].state, RobotState::Collecting);
    assert_eq!((robots[0].x, robots[0].y), (2, 2));
}

#[test]
fn consider_site_keeps_only_admitted_cells() {
    let mut placed = vec![(1, 1)];
    let rivals = vec![(2, 2)];
    assert!(!consider_site(&mut placed, (1, 1), (0, 0), &rivals));
    assert!(!consider_site(&mut placed, (2, 2), (0, 0), &rivals));
    assert!(!consider_site(&mut placed, (0, 0), (0, 0), &rivals));
    assert!(consider_site(&mut placed, (3, 1), (0, 0), &rivals));
    assert_eq!(placed, vec![(1, 1), (3, 1)]);
}

#[test]
fn render_paints_the_palette() {
    let mut map = open_world(false);
    map.explored[0] = vec![true; 10];
    map.obstacles[0][1] = true;
    map.energy = vec![(2, 0)];
    map.minerals = vec![(3, 0)];
    let buf = render_buffer(&map, &vec![]);
    assert_eq!(buf.len(), 100);
    assert_eq!(buf[0], FLOOR_COLOR);
    assert_eq!(buf[1], OBSTACLE_COLOR);
    assert_eq!(buf[2], ENERGY_COLOR);
    assert_eq!(buf[3], MINERAL_COLOR);
    assert_eq!(buf[10 + 1], FOG_COLOR);
    for (x, y) in [(5, 5), (4, 5), (6, 5), (5, 4), (5, 6)] {
        assert_eq!(buf[y * 10 + x], BASE_COLOR);
    }
    assert_eq!(buf[4 * 10 + 4], FOG_COLOR);
}

#[test]
fn render_draws_robots_last_one_on_top() {
    let map = open_world(true);
    let robots = vec![
        robot_in(1, 1, Task::CollectEnergy, RobotState::Returning),
        robot_in(1, 1, Task::Explore, RobotState::Exploring),
        robot_in(5, 5, Task::CollectMinerals, RobotState::Collecting),
    ];
    let buf = render_buffer(&map, &robots);
    assert_eq!(buf[11], EXPLORING_COLOR);
    assert_eq!(buf[55], BUSY_COLOR);
    assert_eq!(buf[12], FLOOR_COLOR);
}
