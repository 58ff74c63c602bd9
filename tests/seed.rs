use conway_life::cell::{Cell, Config};
use conway_life::life::next_generation;
use conway_life::seed::{dead_grid, place, ultra_complex_initial_pattern};

fn config(width: usize, height: usize) -> Config {
    Config { width, height, scale: 5, fps: 10, color_mode: true }
}

fn alive_count(grid: &Vec<Vec<Cell>>) -> usize {
    grid.iter().map(|row| row.iter().filter(|c| **c != Cell::Dead).count()).sum()
}

#[test]
fn dead_grid_has_config_size() {
    let grid = dead_grid(&config(4, 3));
    assert_eq!(grid.len(), 3);
    assert!(grid.iter().all(|row| row.len() == 4 && row.iter().all(|c| *c == Cell::Dead)));
}

#[test]
fn place_clips_at_edges() {
    let cfg = config(4, 4);
    let mut grid = dead_grid(&cfg);
    place(&mut grid, &[(0, 0), (1, 0), (0, 1), (1, 1)], 3, 3, &cfg);
    assert_eq!(grid[3][3], Cell::Alive(1));
    assert_eq!(alive_count(&grid), 1);
    place(&mut grid, &[(0, 0)], usize::MAX, 0, &cfg);
    assert_eq!(alive_count(&grid), 1);
}

#[test]
fn place_sets_newborn_age() {
    let cfg = config(4, 4);
    let mut grid = vec![vec![Cell::Alive(9); 4]; 4];
    place(&mut grid, &[(1, 2)], 1, 0, &cfg);
    assert_eq!(grid[2][2], Cell::Alive(1));
    assert_eq!(grid[0][0], Cell::Alive(9));
}

#[test]
fn seed_places_catalogue() {
    let grid = ultra_complex_initial_pattern(&config(100, 100));
    assert_eq!(grid.len(), 100);
    assert!(grid.iter().all(|row| row.len() == 100));
    assert_eq!(alive_count(&grid), 251);
    // The block at (5, 5).
    for &(x, y) in [(5, 5), (6, 5), (5, 6), (6, 6)].iter() {
        assert_eq!(grid[y][x], Cell::Alive(1));
    }
    assert_eq!(grid[4][4], Cell::Dead);
    // A glider at (10, 85).
    for &(x, y) in [(11, 85), (12, 86), (10, 87), (11, 87), (12, 87)].iter() {
        assert_eq!(grid[y][x], Cell::Alive(1));
    }
    assert_eq!(grid[0][0], Cell::Dead);
}

#[test]
fn seed_first_generation() {
    let cfg = config(100, 100);
    let grid = ultra_complex_initial_pattern(&cfg);
    let next = next_generation(&grid, &cfg);
    assert_eq!(alive_count(&next), 307);
}

#[test]
fn seed_clipped_on_small_board() {
    let grid = ultra_complex_initial_pattern(&config(8, 8));
    // Only the block at (5, 5) fits among the first rows; the gun at (2, 2) is partly clipped.
    assert_eq!(grid.len(), 8);
    assert_eq!(grid[5][5], Cell::Alive(1));
    assert!(grid.iter().all(|row| row.iter().all(|c| *c == Cell::Dead || *c == Cell::Alive(1))));
}
