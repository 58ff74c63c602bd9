use conway_life::cell::{Cell, Config};
use conway_life::life::{count_neighbors, next_generation, next_state};
use conway_life::seed::{dead_grid, place};

fn config(width: usize, height: usize) -> Config {
    Config { width, height, scale: 1, fps: 10, color_mode: false }
}

fn board(width: usize, height: usize, alive: &[(usize, usize)]) -> Vec<Vec<Cell>> {
    let cfg = config(width, height);
    let mut grid = dead_grid(&cfg);
    place(&mut grid, alive, 0, 0, &cfg);
    grid
}

fn alive_cells(grid: &Vec<Vec<Cell>>) -> Vec<(usize, usize)> {
    let mut out = Vec::new();
    for (y, row) in grid.iter().enumerate() {
        for (x, c) in row.iter().enumerate() {
            if let Cell::Alive(_) = c {
                out.push((x, y));
            }
        }
    }
    out.sort();
    out
}

fn sorted(cells: &[(usize, usize)]) -> Vec<(usize, usize)> {
    let mut v = cells.to_vec();
    v.sort();
    v
}

#[test]
fn rule_table_alive_cells() {
    for n in 0..=8usize {
        let expected = if n == 2 || n == 3 { Cell::Alive(6) } else { Cell::Dead };
        assert_eq!(next_state(Cell::Alive(5), n), expected, "count {}", n);
    }
}

#[test]
fn rule_table_dead_cells() {
    for n in 0..=8usize {
        let expected = if n == 3 { Cell::Alive(1) } else { Cell::Dead };
        assert_eq!(next_state(Cell::Dead, n), expected, "count {}", n);
    }
}

#[test]
fn rule_age_saturates() {
    assert_eq!(next_state(Cell::Alive(254), 2), Cell::Alive(255));
    assert_eq!(next_state(Cell::Alive(255), 3), Cell::Alive(255));
    assert_eq!(next_state(Cell::Alive(255), 4), Cell::Dead);
}

#[test]
fn next_generation_applies_rule_to_every_cell() {
    // Each cell of the next board is the rule applied to the current cell and
    // its counted neighbours.
    let grid = board(7, 6, &[(0, 0), (1, 0), (2, 1), (6, 5), (3, 3), (4, 3), (3, 4), (5, 5)]);
    let cfg = config(7, 6);
    let next = next_generation(&grid, &cfg);
    assert_eq!(next.len(), 6);
    for y in 0..6 {
        assert_eq!(next[y].len(), 7);
        for x in 0..7 {
            let n = count_neighbors(&grid, x, y, &cfg);
            assert_eq!(next[y][x], next_state(grid[y][x], n));
        }
    }
}

#[test]
fn wrap_neighbors_of_origin_each_counted() {
    let (w, h) = (5usize, 4usize);
    let cfg = config(w, h);
    let wrapped = [
        (w - 1, h - 1), (0, h - 1), (1, h - 1),
        (w - 1, 0), (1, 0),
        (w - 1, 1), (0, 1), (1, 1),
    ];
    let empty = dead_grid(&cfg);
    assert_eq!(count_neighbors(&empty, 0, 0, &cfg), 0);
    for &p in wrapped.iter() {
        let grid = board(w, h, &[p]);
        assert_eq!(count_neighbors(&grid, 0, 0, &cfg), 1, "neighbour {:?}", p);
    }
    let all = board(w, h, &wrapped);
    assert_eq!(count_neighbors(&all, 0, 0, &cfg), 8);
}

#[test]
fn wrap_far_cells_not_counted() {
    let cfg = config(5, 4);
    let grid = board(5, 4, &[(0, 0), (2, 2), (3, 2), (2, 0), (0, 2)]);
    assert_eq!(count_neighbors(&grid, 0, 0, &cfg), 0);
}

#[test]
fn wrap_bottom_right_corner() {
    let cfg = config(6, 6);
    let grid = board(6, 6, &[(0, 0), (0, 5), (5, 0)]);
    assert_eq!(count_neighbors(&grid, 5, 5, &cfg), 3);
    assert_eq!(count_neighbors(&grid, 0, 0, &cfg), 2);
}

#[test]
fn block_is_still_life() {
    let block = [(0, 0), (1, 0), (0, 1), (1, 1)];
    let cfg = config(8, 8);
    let grid = board(8, 8, &block);
    let next = next_generation(&grid, &cfg);
    assert_eq!(alive_cells(&next), sorted(&block));
    for &(x, y) in block.iter() {
        assert_eq!(next[y][x], Cell::Alive(2));
    }
}

#[test]
fn block_in_middle_is_still_life() {
    let block = [(3, 3), (4, 3), (3, 4), (4, 4)];
    let cfg = config(8, 8);
    let grid = board(8, 8, &block);
    let next = next_generation(&grid, &cfg);
    assert_eq!(alive_cells(&next), sorted(&block));
}

#[test]
fn blinker_has_period_two() {
    let horizontal = [(1, 2), (2, 2), (3, 2)];
    let vertical = [(2, 1), (2, 2), (2, 3)];
    let cfg = config(5, 5);
    let grid = board(5, 5, &horizontal);
    let one = next_generation(&grid, &cfg);
    assert_eq!(alive_cells(&one), sorted(&vertical));
    assert_ne!(alive_cells(&one), alive_cells(&grid));
    let two = next_generation(&one, &cfg);
    assert_eq!(alive_cells(&two), sorted(&horizontal));
    // The centre cell lived through both steps; the ends were born anew.
    assert_eq!(two[2][2], Cell::Alive(3));
    assert_eq!(two[2][1], Cell::Alive(1));
}

#[test]
fn glider_moves_one_diagonal_in_four_steps() {
    let glider = [(1, 0), (2, 1), (0, 2), (1, 2), (2, 2)];
    let cfg = config(12, 12);
    let start: Vec<(usize, usize)> = glider.iter().map(|&(x, y)| (x + 3, y + 3)).collect();
    let mut grid = board(12, 12, &start);
    for _ in 0..4 {
        grid = next_generation(&grid, &cfg);
    }
    let moved: Vec<(usize, usize)> = start.iter().map(|&(x, y)| (x + 1, y + 1)).collect();
    assert_eq!(alive_cells(&grid), sorted(&moved));
}

#[test]
fn glider_wraps_across_edges() {
    let glider = [(1, 0), (2, 1), (0, 2), (1, 2), (2, 2)];
    let cfg = config(8, 8);
    let start: Vec<(usize, usize)> = glider.iter().map(|&(x, y)| (x + 5, y + 5)).collect();
    let mut grid = board(8, 8, &start);
    for _ in 0..4 {
        grid = next_generation(&grid, &cfg);
    }
    let moved: Vec<(usize, usize)> = start.iter().map(|&(x, y)| ((x + 1) % 8, (y + 1) % 8)).collect();
    assert_eq!(alive_cells(&grid), sorted(&moved));
}

#[test]
fn age_counts_surviving_generations() {
    let cfg = config(6, 6);
    let mut grid = board(6, 6, &[(2, 2), (3, 2), (2, 3), (3, 3)]);
    for _ in 0..5 {
        grid = next_generation(&grid, &cfg);
    }
    assert_eq!(grid[2][2], Cell::Alive(6));
    assert_eq!(grid[3][3], Cell::Alive(6));
}

#[test]
fn age_saturates_at_maximum() {
    let cfg = config(6, 6);
    let mut grid = board(6, 6, &[(2, 2), (3, 2), (2, 3), (3, 3)]);
    for _ in 0..300 {
        grid = next_generation(&grid, &cfg);
    }
    assert_eq!(grid[2][2], Cell::Alive(255));
    assert_eq!(alive_cells(&grid).len(), 4);
}

#[test]
fn next_generation_leaves_input_unchanged() {
    let cfg = config(5, 5);
    let grid = board(5, 5, &[(1, 2), (2, 2), (3, 2)]);
    let copy = grid.clone();
    let _ = next_generation(&grid, &cfg);
    assert_eq!(grid, copy);
}

#[test]
fn lone_cell_dies() {
    let cfg = config(4, 4);
    let grid = board(4, 4, &[(1, 1)]);
    let next = next_generation(&grid, &cfg);
    assert!(alive_cells(&next).is_empty());
}
