use robot_swarm::map::{Tile, WorldMap};
use std::collections::HashSet;

#[test]
fn test_map_creation_with_fixed_seed() {
    let seed: u32 = 42;
    let width: usize = 10;
    let height: usize = 10;
    let map1 = WorldMap::new(seed, width, height);
    let map2 = WorldMap::new(seed, width, height);

    assert_eq!(map1.grid, map2.grid);
}

#[test]
fn test_map_dimensions() {
    let width: usize = 15;
    let height: usize = 20;
    let map = WorldMap::new(42, width, height);

    assert_eq!(map.width, width);
    assert_eq!(map.height, height);
    assert_eq!(map.grid.len(), height);
    assert_eq!(map.grid[0].len(), width);
}

#[test]
fn test_resource_distribution() {
    let map = WorldMap::new(42, 100, 100);
    let mut energy_count: usize = 0;
    let mut mineral_count: usize = 0;
    let mut scientific_count: usize = 0;

    for row in &map.grid {
        for &tile in row {
            match tile {
                Tile::Energy => energy_count += 1,
                Tile::Mineral => mineral_count += 1,
                Tile::Scientific => scientific_count += 1,
                _ => {}
            }
        }
    }

    // Check that the resources are distributed in a reasonable way
    let total_tiles: usize = 100 * 100;
    let energy_ratio = energy_count as f64 / total_tiles as f64;
    let mineral_ratio = mineral_count as f64 / total_tiles as f64;
    let scientific_ratio = scientific_count as f64 / total_tiles as f64;

    assert!(energy_ratio < 0.05);
    assert!(mineral_ratio < 0.05);
    assert!(scientific_ratio < 0.05);
}

#[test]
fn test_obstacle_generation() {
    let map = WorldMap::new(42, 100, 100);
    let mut obstacle_count: usize = 0;

    for row in &map.grid {
        for &tile in row {
            if tile == Tile::Obstacle {
                obstacle_count += 1;
            }
        }
    }

    // Check that the obstacles are distributed in a reasonable way
    let total_tiles: usize = 100 * 100;
    let obstacle_ratio = obstacle_count as f64 / total_tiles as f64;
    assert!(obstacle_ratio > 0.15 && obstacle_ratio < 0.5);
}

#[test]
fn test_tile_enum() {
    let empty = Tile::Empty;
    let obstacle = Tile::Obstacle;
    let energy = Tile::Energy;
    let mineral = Tile::Mineral;
    let scientific = Tile::Scientific;
    let station = Tile::Station;

    assert_eq!(empty, Tile::Empty);
    assert_ne!(empty, obstacle);

    let empty_copy = empty;
    assert_eq!(empty, empty_copy);

    let mut set = HashSet::new();
    set.insert(empty);
    set.insert(obstacle);
    set.insert(energy);
    set.insert(mineral);
    set.insert(scientific);
    set.insert(station);
    assert_eq!(set.len(), 6);
}
