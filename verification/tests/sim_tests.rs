use rand::rngs::StdRng;
use rand::SeedableRng;
use robot_swarm::map::{Tile, WorldMap};
use robot_swarm::robot::{initialize_robots, Robot, RobotType};
use robot_swarm::sim::{all_done, step_round};
use robot_swarm::station::Station;

fn open_map(width: usize, height: usize) -> WorldMap {
    let mut grid = vec![vec![Tile::Empty; width]; height];
    grid[height / 2][0] = Tile::Station;
    WorldMap { grid, width, height }
}

#[test]
fn test_generated_cells_exact() {
    // Exact cells of the seed-42 ten-by-ten world.
    let map = WorldMap::new(42, 10, 10);
    assert_eq!(map.grid[5][0], Tile::Station);
    assert_eq!(map.grid[0][1], Tile::Obstacle);
    assert_eq!(map.grid[2][1], Tile::Scientific);
    assert_eq!(map.grid[6][8], Tile::Energy);
    assert_eq!(map.grid[6][1], Tile::Mineral);
    assert_eq!(map.grid[3][0], Tile::Empty);
}

#[test]
fn test_smallest_world() {
    let map = WorldMap::new(7, 1, 1);
    assert_eq!(map.width, 1);
    assert_eq!(map.height, 1);
    assert_eq!(map.grid[0][0], Tile::Station);
}

#[test]
fn test_energy_after_one_turn_near_energy_tile() {
    // An agent with energy 10 beside an energy tile, no obstacles:
    // after one move and one action its energy is 9 (stepped elsewhere)
    // or 14 (stepped onto the tile and collected).
    let mut map = open_map(10, 10);
    map.grid[4][5] = Tile::Energy;
    let mut robot = Robot {
        x: 4,
        y: 4,
        robot_type: RobotType::Miner,
        discoveries: Vec::new(),
        energy: 10,
        returning: false,
    };
    let mut rng = StdRng::seed_from_u64(7);
    robot.move_robot(&map, &mut rng, 0, 5);
    robot.perform_action(&mut map);
    assert!(robot.energy == 9 || robot.energy == 14);
}

#[test]
fn test_miner_collects_mineral_under_itself() {
    // A mineral under a miner: exactly one discovery entry for that
    // cell, and the cell is reset to empty.
    let mut map = open_map(10, 10);
    map.grid[3][6] = Tile::Mineral;
    let mut robot = Robot {
        x: 6,
        y: 3,
        robot_type: RobotType::Miner,
        discoveries: Vec::new(),
        energy: 8,
        returning: false,
    };
    robot.perform_action(&mut map);
    assert_eq!(robot.discoveries.len(), 1);
    assert_eq!(robot.discoveries[0], (6, 3, Tile::Mineral));
    assert_eq!(map.grid[3][6], Tile::Empty);
}

#[test]
fn test_same_triple_from_two_handoffs() {
    // Two agents hand the same triple over: the station reports it once.
    let mut station = Station::new(0, 5);
    let mut rng = StdRng::seed_from_u64(3);
    let mut first = Robot::new(10, 10, &mut rng);
    let mut second = Robot::new(10, 10, &mut rng);
    first.discoveries.push((2, 7, Tile::Scientific));
    second.discoveries.push((2, 7, Tile::Scientific));

    station.collect_discoveries(&mut first);
    station.collect_discoveries(&mut second);

    assert_eq!(station.discoveries.len(), 1);
    assert!(first.discoveries.is_empty());
    assert!(second.discoveries.is_empty());
}

#[test]
fn test_summarize_counts() {
    let mut station = Station::new(0, 5);
    station.insert_discovery((1, 1, Tile::Energy));
    station.insert_discovery((2, 1, Tile::Energy));
    station.insert_discovery((3, 1, Tile::Mineral));
    station.insert_discovery((4, 1, Tile::Scientific));
    station.insert_discovery((4, 1, Tile::Scientific));
    let (energy, mineral, scientific) = station.summarize();
    assert_eq!(energy, 2);
    assert_eq!(mineral, 1);
    assert_eq!(scientific, 2 - 1);
}

#[test]
fn test_rounds_preserve_station_and_bounds() {
    // A bounded run of full rounds: the station tile survives, every
    // agent stays in bounds, obstacles never move.
    let width: usize = 20;
    let height: usize = 10;
    let seed: u32 = 42;
    let station_x: usize = 0;
    let station_y: usize = height / 2;
    let mut map = WorldMap::new(seed, width, height);
    let obstacles_before: Vec<(usize, usize)> = (0..height)
        .flat_map(|y| (0..width).map(move |x| (x, y)))
        .filter(|&(x, y)| map.grid[y][x] == Tile::Obstacle)
        .collect();
    let mut station = Station::new(station_x, station_y);
    let mut robots = initialize_robots(3, width, height, seed);
    let mut rng = StdRng::seed_from_u64(seed as u64);

    let mut rounds: usize = 0;
    while rounds < 300 && !all_done(&robots, station_x, station_y) {
        step_round(&mut map, &mut station, &mut robots, &mut rng, station_x, station_y);
        rounds += 1;
        assert_eq!(map.grid[station_y][station_x], Tile::Station);
        for robot in &robots {
            assert!(robot.x < width);
            assert!(robot.y < height);
        }
    }
    for &(x, y) in &obstacles_before {
        assert_eq!(map.grid[y][x], Tile::Obstacle);
    }
}

#[test]
fn test_returning_robot_homes_in() {
    // A homing agent on open ground steps one cell toward the station
    // on each axis and keeps its energy.
    let map = open_map(10, 10);
    let mut robot = Robot {
        x: 6,
        y: 2,
        robot_type: RobotType::Explorer,
        discoveries: Vec::new(),
        energy: 0,
        returning: true,
    };
    let mut rng = StdRng::seed_from_u64(1);
    robot.move_robot(&map, &mut rng, 0, 5);
    assert_eq!((robot.x, robot.y), (5, 3));
    assert_eq!(robot.energy, 0);
    assert!(robot.returning);
}

#[test]
fn test_arrival_hands_discoveries_over() {
    // A homing agent one cell from the station arrives and hands its
    // buffer over in the same tick.
    let mut map = open_map(10, 10);
    let mut station = Station::new(0, 5);
    let mut robot = Robot {
        x: 1,
        y: 5,
        robot_type: RobotType::Scientist,
        discoveries: vec![(4, 4, Tile::Scientific)],
        energy: 0,
        returning: true,
    };
    let mut rng = StdRng::seed_from_u64(1);
    robot.tick(&mut map, &mut station, &mut rng, 0, 5);
    assert_eq!((robot.x, robot.y), (0, 5));
    assert!(robot.discoveries.is_empty());
    assert!(station.discoveries.contains(&(4, 4, Tile::Scientific)));
    assert_eq!(station.discoveries.len(), 1);
}

#[test]
fn test_scientist_ignores_mineral() {
    // Collection exclusivity: a scientist on a mineral leaves it alone.
    let mut map = open_map(10, 10);
    map.grid[2][2] = Tile::Mineral;
    let mut robot = Robot {
        x: 2,
        y: 2,
        robot_type: RobotType::Scientist,
        discoveries: Vec::new(),
        energy: 8,
        returning: false,
    };
    robot.perform_action(&mut map);
    assert!(robot.discoveries.is_empty());
    assert_eq!(map.grid[2][2], Tile::Mineral);
}

#[test]
fn test_explorer_ignores_mineral_and_scientific() {
    let mut map = open_map(10, 10);
    map.grid[2][2] = Tile::Mineral;
    map.grid[3][3] = Tile::Scientific;
    let mut robot = Robot {
        x: 2,
        y: 2,
        robot_type: RobotType::Explorer,
        discoveries: Vec::new(),
        energy: 8,
        returning: false,
    };
    robot.perform_action(&mut map);
    robot.x = 3;
    robot.y = 3;
    robot.perform_action(&mut map);
    assert!(robot.discoveries.is_empty());
    assert_eq!(map.grid[2][2], Tile::Mineral);
    assert_eq!(map.grid[3][3], Tile::Scientific);
}

#[test]
fn test_energy_collected_by_any_role() {
    let mut map = open_map(10, 10);
    map.grid[1][1] = Tile::Energy;
    map.grid[1][2] = Tile::Energy;
    map.grid[1][3] = Tile::Energy;
    let roles = [RobotType::Explorer, RobotType::Miner, RobotType::Scientist];
    for (i, &role) in roles.iter().enumerate() {
        let mut robot = Robot {
            x: i + 1,
            y: 1,
            robot_type: role,
            discoveries: Vec::new(),
            energy: 3,
            returning: false,
        };
        robot.perform_action(&mut map);
        assert_eq!(robot.energy, 8);
        assert_eq!(robot.discoveries.len(), 1);
        assert_eq!(map.grid[1][i + 1], Tile::Empty);
    }
}

#[test]
fn test_terrain_determinism_large() {
    let a = WorldMap::new(2024, 33, 17);
    let b = WorldMap::new(2024, 33, 17);
    assert_eq!(a.grid, b.grid);
    let c = WorldMap::new(2025, 33, 17);
    assert!(c.grid != a.grid);
}

#[test]
fn test_roles_vary_across_seeds() {
    // The seeded role draw is not constant: across a few seeds all
    // three roles occur.
    let mut seen_explorer = false;
    let mut seen_miner = false;
    let mut seen_scientist = false;
    for seed in 0u32..50 {
        for robot in initialize_robots(3, 10, 10, seed) {
            match robot.robot_type {
                RobotType::Explorer => seen_explorer = true,
                RobotType::Miner => seen_miner = true,
                RobotType::Scientist => seen_scientist = true,
            }
        }
    }
    assert!(seen_explorer && seen_miner && seen_scientist);
}

#[test]
fn test_tick_at_station_ends_homing() {
    // A homing agent already on the station cell ends Returning mode
    // in place, so the termination predicate can become true.
    let mut map = open_map(10, 10);
    let mut station = Station::new(0, 5);
    let mut robot = Robot {
        x: 0,
        y: 5,
        robot_type: RobotType::Miner,
        discoveries: Vec::new(),
        energy: 0,
        returning: true,
    };
    let mut rng = StdRng::seed_from_u64(9);
    robot.tick(&mut map, &mut station, &mut rng, 0, 5);
    assert!(!robot.returning);
    assert_eq!((robot.x, robot.y), (0, 5));
    let robots = vec![robot];
    assert!(all_done(&robots, 0, 5));
}

#[test]
fn test_roster_determinism() {
    // Two rosters from the same seed agree in every field, role
    // included.
    let a = initialize_robots(5, 12, 9, 77);
    let b = initialize_robots(5, 12, 9, 77);
    assert_eq!(a.len(), b.len());
    for (first, second) in a.iter().zip(b.iter()) {
        assert_eq!(first.x, second.x);
        assert_eq!(first.y, second.y);
        assert_eq!(first.robot_type, second.robot_type);
        assert_eq!(first.energy, second.energy);
        assert_eq!(first.returning, second.returning);
        assert_eq!(first.discoveries, second.discoveries);
    }
}
